//! Party House: guests, houses and the days of a party.
//!
//! The guest kinds modelled are those of `GuestType`. Kinds such as the
//! ghost, the introvert and the magician, and the magician's roll, are not
//! modelled, so playing out or simulating whole parties that involve them is
//! not part of this library.
use vstd::prelude::*;
use crate::rng::{rng_text, Rng, RngState};
use crate::text::{decimal, decimal_chars};
use vstd::string::StringExecFns;

verus! {

/// The kinds of guests of Party House.
#[derive(Clone, Copy, Debug, PartialOrd, Ord, PartialEq, Eq, Structural, Hash)]
pub enum GuestType {
    WildBuddy,
    OldFriend,
    RichPal,
    // 3
    Driver,
    // 4
    TicketTaker,
    Hippy,
    // 5
    Rockstar,
    Comedian,
    Caterer,
    Cheerleader,
    // 6
    Gangster,
    Athlete,
    // 7
    CuteDog,
    Gambler,
    Stylist,
    Counselor,
    // 8
    Writer,
    // 9
    Auctioneer,
    // 11
    Bartender,
    // stars
    Dinosaur,
    Mermaid,
    Alien,
    Superhero,
}

/// The emoji that depicts a guest.
pub open spec fn guest_emoji(g: GuestType) -> Seq<char> {
    match g {
        GuestType::WildBuddy => "🤪"@,
        GuestType::OldFriend => "👨"@,
        GuestType::RichPal => "💵"@,
        GuestType::Driver => "🚕"@,
        GuestType::TicketTaker => "🎫"@,
        GuestType::Hippy => "😎"@,
        GuestType::Rockstar => "🎸"@,
        GuestType::Comedian => "🤣"@,
        GuestType::Caterer => "🍽️"@,
        GuestType::Cheerleader => "🎉"@,
        GuestType::Gangster => "🔫"@,
        GuestType::Athlete => "🏀"@,
        GuestType::CuteDog => "🐩"@,
        GuestType::Gambler => "🎰"@,
        GuestType::Stylist => "💈"@,
        GuestType::Counselor => "🙂"@,
        GuestType::Writer => "📝"@,
        GuestType::Auctioneer => "💰"@,
        GuestType::Bartender => "🍷"@,
        GuestType::Dinosaur => "🦖"@,
        GuestType::Mermaid => "🧜‍"@,
        GuestType::Alien => "👽"@,
        GuestType::Superhero => "🦸"@,
    }
}

/// The popularity cost to buy a guest (0 for Wild Buddy).
pub open spec fn guest_cost(g: GuestType) -> u32 {
    match g {
        GuestType::WildBuddy => 0,
        GuestType::OldFriend => 2,
        GuestType::RichPal => 3,
        GuestType::Driver => 3,
        GuestType::TicketTaker => 4,
        GuestType::Hippy => 4,
        GuestType::Rockstar => 5,
        GuestType::Comedian => 5,
        GuestType::Caterer => 5,
        GuestType::Cheerleader => 5,
        GuestType::Gangster => 6,
        GuestType::Athlete => 6,
        GuestType::CuteDog => 7,
        GuestType::Gambler => 7,
        GuestType::Stylist => 7,
        GuestType::Counselor => 7,
        GuestType::Writer => 8,
        GuestType::Auctioneer => 9,
        GuestType::Bartender => 11,
        GuestType::Dinosaur => 25,
        GuestType::Mermaid => 35,
        GuestType::Alien => 40,
        GuestType::Superhero => 50,
    }
}

/// The popularity a guest gives by default.
pub open spec fn guest_base_pop(g: GuestType) -> i32 {
    match g {
        GuestType::WildBuddy => 2,
        GuestType::OldFriend => 1,
        GuestType::RichPal => 0,
        GuestType::Driver => 0,
        GuestType::TicketTaker => -1i32,
        GuestType::Hippy => 1,
        GuestType::Rockstar => 3,
        GuestType::Comedian => 0,
        GuestType::Caterer => 4,
        GuestType::Cheerleader => 1,
        GuestType::Gangster => 0,
        GuestType::Athlete => 1,
        GuestType::CuteDog => 2,
        GuestType::Gambler => 2,
        GuestType::Stylist => 0,
        GuestType::Counselor => 0,
        GuestType::Writer => 1,
        GuestType::Auctioneer => 0,
        GuestType::Bartender => 1,
        GuestType::Dinosaur => 0,
        GuestType::Mermaid => 0,
        GuestType::Alien => 0,
        GuestType::Superhero => 3,
    }
}

/// The cash a guest gives by default.
pub open spec fn guest_base_cash(g: GuestType) -> i32 {
    match g {
        GuestType::WildBuddy => 0,
        GuestType::OldFriend => 0,
        GuestType::RichPal => 1,
        GuestType::Driver => 0,
        GuestType::TicketTaker => 2,
        GuestType::Hippy => 0,
        GuestType::Rockstar => 2,
        GuestType::Comedian => -1i32,
        GuestType::Caterer => -1i32,
        GuestType::Cheerleader => 0,
        GuestType::Gangster => 4,
        GuestType::Athlete => 1,
        GuestType::CuteDog => 0,
        GuestType::Gambler => 3,
        GuestType::Stylist => -1i32,
        GuestType::Counselor => 0,
        GuestType::Writer => 0,
        GuestType::Auctioneer => 3,
        GuestType::Bartender => 0,
        GuestType::Dinosaur => 0,
        GuestType::Mermaid => 0,
        GuestType::Alien => 0,
        GuestType::Superhero => 0,
    }
}

/// Whether a guest is trouble by default.
pub open spec fn guest_is_trouble(g: GuestType) -> bool {
    match g {
        GuestType::WildBuddy => true,
        GuestType::OldFriend => false,
        GuestType::RichPal => false,
        GuestType::Driver => false,
        GuestType::TicketTaker => false,
        GuestType::Hippy => false,
        GuestType::Rockstar => true,
        GuestType::Comedian => false,
        GuestType::Caterer => false,
        GuestType::Cheerleader => false,
        GuestType::Gangster => true,
        GuestType::Athlete => false,
        GuestType::CuteDog => false,
        GuestType::Gambler => true,
        GuestType::Stylist => false,
        GuestType::Counselor => false,
        GuestType::Writer => false,
        GuestType::Auctioneer => false,
        GuestType::Bartender => false,
        GuestType::Dinosaur => true,
        GuestType::Mermaid => false,
        GuestType::Alien => false,
        GuestType::Superhero => false,
    }
}

/// Whether a guest is a white flag (cancels one trouble).
pub open spec fn guest_is_white_flag(g: GuestType) -> bool {
    match g {
        GuestType::WildBuddy => false,
        GuestType::OldFriend => false,
        GuestType::RichPal => false,
        GuestType::Driver => false,
        GuestType::TicketTaker => false,
        GuestType::Hippy => true,
        GuestType::Rockstar => false,
        GuestType::Comedian => false,
        GuestType::Caterer => false,
        GuestType::Cheerleader => false,
        GuestType::Gangster => false,
        GuestType::Athlete => false,
        GuestType::CuteDog => true,
        GuestType::Gambler => false,
        GuestType::Stylist => false,
        GuestType::Counselor => false,
        GuestType::Writer => false,
        GuestType::Auctioneer => false,
        GuestType::Bartender => false,
        GuestType::Dinosaur => false,
        GuestType::Mermaid => false,
        GuestType::Alien => false,
        GuestType::Superhero => false,
    }
}

/// The price list of the game, in popularity: from 0 for a Wild Buddy up to
/// 50 for a Superhero. Buying a guest succeeds exactly when the house's
/// popularity covers its price (see `House::buy_guest`).
pub proof fn lemma_guest_prices()
    ensures
        guest_cost(GuestType::WildBuddy) == 0,
        guest_cost(GuestType::OldFriend) == 2,
        guest_cost(GuestType::RichPal) == 3,
        guest_cost(GuestType::Driver) == 3,
        guest_cost(GuestType::TicketTaker) == 4,
        guest_cost(GuestType::Hippy) == 4,
        guest_cost(GuestType::Rockstar) == 5,
        guest_cost(GuestType::Comedian) == 5,
        guest_cost(GuestType::Caterer) == 5,
        guest_cost(GuestType::Cheerleader) == 5,
        guest_cost(GuestType::Gangster) == 6,
        guest_cost(GuestType::Athlete) == 6,
        guest_cost(GuestType::CuteDog) == 7,
        guest_cost(GuestType::Gambler) == 7,
        guest_cost(GuestType::Stylist) == 7,
        guest_cost(GuestType::Counselor) == 7,
        guest_cost(GuestType::Writer) == 8,
        guest_cost(GuestType::Auctioneer) == 9,
        guest_cost(GuestType::Bartender) == 11,
        guest_cost(GuestType::Dinosaur) == 25,
        guest_cost(GuestType::Mermaid) == 35,
        guest_cost(GuestType::Alien) == 40,
        guest_cost(GuestType::Superhero) == 50,
{
}

/// The popularity and cash each kind of guest brings by default.
pub proof fn lemma_guest_payouts()
    ensures
        guest_base_pop(GuestType::WildBuddy) == 2,
        guest_base_pop(GuestType::OldFriend) == 1,
        guest_base_pop(GuestType::RichPal) == 0,
        guest_base_pop(GuestType::Driver) == 0,
        guest_base_pop(GuestType::TicketTaker) == -1i32,
        guest_base_pop(GuestType::Hippy) == 1,
        guest_base_pop(GuestType::Rockstar) == 3,
        guest_base_pop(GuestType::Comedian) == 0,
        guest_base_pop(GuestType::Caterer) == 4,
        guest_base_pop(GuestType::Cheerleader) == 1,
        guest_base_pop(GuestType::Gangster) == 0,
        guest_base_pop(GuestType::Athlete) == 1,
        guest_base_pop(GuestType::CuteDog) == 2,
        guest_base_pop(GuestType::Gambler) == 2,
        guest_base_pop(GuestType::Stylist) == 0,
        guest_base_pop(GuestType::Counselor) == 0,
        guest_base_pop(GuestType::Writer) == 1,
        guest_base_pop(GuestType::Auctioneer) == 0,
        guest_base_pop(GuestType::Bartender) == 1,
        guest_base_pop(GuestType::Dinosaur) == 0,
        guest_base_pop(GuestType::Mermaid) == 0,
        guest_base_pop(GuestType::Alien) == 0,
        guest_base_pop(GuestType::Superhero) == 3,
        guest_base_cash(GuestType::WildBuddy) == 0,
        guest_base_cash(GuestType::OldFriend) == 0,
        guest_base_cash(GuestType::RichPal) == 1,
        guest_base_cash(GuestType::Driver) == 0,
        guest_base_cash(GuestType::TicketTaker) == 2,
        guest_base_cash(GuestType::Hippy) == 0,
        guest_base_cash(GuestType::Rockstar) == 2,
        guest_base_cash(GuestType::Comedian) == -1i32,
        guest_base_cash(GuestType::Caterer) == -1i32,
        guest_base_cash(GuestType::Cheerleader) == 0,
        guest_base_cash(GuestType::Gangster) == 4,
        guest_base_cash(GuestType::Athlete) == 1,
        guest_base_cash(GuestType::CuteDog) == 0,
        guest_base_cash(GuestType::Gambler) == 3,
        guest_base_cash(GuestType::Stylist) == -1i32,
        guest_base_cash(GuestType::Counselor) == 0,
        guest_base_cash(GuestType::Writer) == 0,
        guest_base_cash(GuestType::Auctioneer) == 3,
        guest_base_cash(GuestType::Bartender) == 0,
        guest_base_cash(GuestType::Dinosaur) == 0,
        guest_base_cash(GuestType::Mermaid) == 0,
        guest_base_cash(GuestType::Alien) == 0,
        guest_base_cash(GuestType::Superhero) == 0,
{
}

/// The trouble makers are exactly the Wild Buddy, the Rockstar, the
/// Gangster, the Gambler and the Dinosaur; the white flags are exactly the
/// Hippy and the Cute Dog; the stars are exactly the guests that cost 25 or
/// more: the Dinosaur, the Mermaid, the Alien and the Superhero.
pub proof fn lemma_guest_kinds(g: GuestType)
    ensures
        guest_is_trouble(g) <==> (g == GuestType::WildBuddy || g == GuestType::Rockstar || g == GuestType::Gangster || g == GuestType::Gambler || g == GuestType::Dinosaur),
        guest_is_white_flag(g) <==> (g == GuestType::Hippy || g == GuestType::CuteDog),
        guest_cost(g) >= 25 <==> (g == GuestType::Dinosaur || g == GuestType::Mermaid || g == GuestType::Alien || g == GuestType::Superhero),
{
}

impl GuestType {
    /// Returns an emoji that depicts this guest.
    ///
    /// **Note:** it's arbitrarily chosen by the crate's author.
    /// Not the official source.
    pub fn emoji(&self) -> (e: &str)
        ensures
            e@ == guest_emoji(*self),
    {
        match self {
            Self::WildBuddy => "🤪",
            Self::OldFriend => "👨",
            Self::RichPal => "💵",
            Self::Driver => "🚕",
            Self::TicketTaker => "🎫",
            Self::Hippy => "😎",
            Self::Rockstar => "🎸",
            Self::Comedian => "🤣",
            Self::Caterer => "🍽️",
            Self::Cheerleader => "🎉",
            Self::Gangster => "🔫",
            Self::Athlete => "🏀",
            Self::CuteDog => "🐩",
            Self::Gambler => "🎰",
            Self::Stylist => "💈",
            Self::Counselor => "🙂",
            Self::Writer => "📝",
            Self::Auctioneer => "💰",
            Self::Bartender => "🍷",
            Self::Dinosaur => "🦖",
            Self::Mermaid => "🧜‍",
            Self::Alien => "👽",
            Self::Superhero => "🦸",
        }
    }

    /// Returns the popularity cost to buy this guest.
    /// Wild Buddy is assumed to have cost 0, reflecting the in-game implementation.
    pub fn cost(&self) -> (c: u32)
        ensures
            c == guest_cost(*self),
    {
        match self {
            Self::WildBuddy => 0,
            Self::OldFriend => 2,
            Self::RichPal => 3,
            Self::Driver => 3,
            Self::TicketTaker => 4,
            Self::Hippy => 4,
            Self::Rockstar => 5,
            Self::Comedian => 5,
            Self::Caterer => 5,
            Self::Cheerleader => 5,
            Self::Gangster => 6,
            Self::Athlete => 6,
            Self::CuteDog => 7,
            Self::Gambler => 7,
            Self::Stylist => 7,
            Self::Counselor => 7,
            Self::Writer => 8,
            Self::Auctioneer => 9,
            Self::Bartender => 11,
            Self::Dinosaur => 25,
            Self::Mermaid => 35,
            Self::Alien => 40,
            Self::Superhero => 50,
        }
    }

    /// Returns the base popularity this guest gives by default.
    /// Does not include bonus pop (e.g. Dancer).
    pub fn base_pop(&self) -> (p: i32)
        ensures
            p == guest_base_pop(*self),
    {
        match self {
            Self::WildBuddy => 2,
            Self::OldFriend => 1,
            Self::RichPal => 0,
            Self::Driver => 0,
            Self::TicketTaker => -1,
            Self::Hippy => 1,
            Self::Rockstar => 3,
            Self::Comedian => 0,
            Self::Caterer => 4,
            Self::Cheerleader => 1,
            Self::Gangster => 0,
            Self::Athlete => 1,
            Self::CuteDog => 2,
            Self::Gambler => 2,
            Self::Stylist => 0,
            Self::Counselor => 0,
            Self::Writer => 1,
            Self::Auctioneer => 0,
            Self::Bartender => 1,
            Self::Dinosaur => 0,
            Self::Mermaid => 0,
            Self::Alien => 0,
            Self::Superhero => 3,
        }
    }

    /// Returns the base cash this guest gives by default.
    /// Does not include bonus cash (e.g. Bartender).
    pub fn base_cash(&self) -> (c: i32)
        ensures
            c == guest_base_cash(*self),
    {
        match self {
            Self::WildBuddy => 0,
            Self::OldFriend => 0,
            Self::RichPal => 1,
            Self::Driver => 0,
            Self::TicketTaker => 2,
            Self::Hippy => 0,
            Self::Rockstar => 2,
            Self::Comedian => -1,
            Self::Caterer => -1,
            Self::Cheerleader => 0,
            Self::Gangster => 4,
            Self::Athlete => 1,
            Self::CuteDog => 0,
            Self::Gambler => 3,
            Self::Stylist => -1,
            Self::Counselor => 0,
            Self::Writer => 0,
            Self::Auctioneer => 3,
            Self::Bartender => 0,
            Self::Dinosaur => 0,
            Self::Mermaid => 0,
            Self::Alien => 0,
            Self::Superhero => 0,
        }
    }

    /// Returns whether this guest is trouble by default.
    /// Does not include Werewolf.
    pub fn is_trouble(&self) -> (t: bool)
        ensures
            t == guest_is_trouble(*self),
    {
        match self {
            Self::WildBuddy => true,
            Self::OldFriend => false,
            Self::RichPal => false,
            Self::Driver => false,
            Self::TicketTaker => false,
            Self::Hippy => false,
            Self::Rockstar => true,
            Self::Comedian => false,
            Self::Caterer => false,
            Self::Cheerleader => false,
            Self::Gangster => true,
            Self::Athlete => false,
            Self::CuteDog => false,
            Self::Gambler => true,
            Self::Stylist => false,
            Self::Counselor => false,
            Self::Writer => false,
            Self::Auctioneer => false,
            Self::Bartender => false,
            Self::Dinosaur => true,
            Self::Mermaid => false,
            Self::Alien => false,
            Self::Superhero => false,
        }
    }

    /// Returns whether this guest is white flag (cancels 1 trouble).
    pub fn is_white_flag(&self) -> (f: bool)
        ensures
            f == guest_is_white_flag(*self),
    {
        match self {
            Self::WildBuddy => false,
            Self::OldFriend => false,
            Self::RichPal => false,
            Self::Driver => false,
            Self::TicketTaker => false,
            Self::Hippy => true,
            Self::Rockstar => false,
            Self::Comedian => false,
            Self::Caterer => false,
            Self::Cheerleader => false,
            Self::Gangster => false,
            Self::Athlete => false,
            Self::CuteDog => true,
            Self::Gambler => false,
            Self::Stylist => false,
            Self::Counselor => false,
            Self::Writer => false,
            Self::Auctioneer => false,
            Self::Bartender => false,
            Self::Dinosaur => false,
            Self::Mermaid => false,
            Self::Alien => false,
            Self::Superhero => false,
        }
    }

    /// Returns whether this guest is a star.
    pub fn is_star(&self) -> (s: bool)
        ensures
            s == (guest_cost(*self) >= 25),
    {
        self.cost() >= 25
    }
}


/// A guest card in the rolodex.
#[derive(Clone, Copy, Debug, PartialOrd, Ord, PartialEq, Eq, Hash)]
pub struct Guest {
    gtype: GuestType,
    pop: i32,
    cash: i32,
    // Whether the guest is *currently* a trouble.
    // This can be removed by a counselor.
    trouble: bool,
    invited: bool,
    // Only used by Werewolf.
    morphed: bool,
}

/// The mathematical state of a [`Guest`].
pub struct GuestState {
    pub gtype: GuestType,
    pub pop: i32,
    pub cash: i32,
    pub trouble: bool,
    pub invited: bool,
    pub morphed: bool,
}

impl View for Guest {
    type V = GuestState;

    closed spec fn view(&self) -> GuestState {
        GuestState {
            gtype: self.gtype,
            pop: self.pop,
            cash: self.cash,
            trouble: self.trouble,
            invited: self.invited,
            morphed: self.morphed,
        }
    }
}

/// The printed form of a guest (see [`Guest::to_text`]).
pub open spec fn guest_text(g: GuestState) -> Seq<char> {
    guest_emoji(g.gtype) + (if g.trouble {
        "!"@
    } else {
        Seq::empty()
    }) + (if guest_cost(g.gtype) >= 25 {
        "⭐"@
    } else {
        Seq::empty()
    }) + (if g.pop != 0 {
        "^"@ + decimal_chars(g.pop as int)
    } else {
        Seq::empty()
    }) + (if g.cash != 0 {
        "$"@ + decimal_chars(g.cash as int)
    } else {
        Seq::empty()
    })
}

/// A fresh guest of type `g`.
pub open spec fn fresh_guest(g: GuestType) -> GuestState {
    GuestState {
        gtype: g,
        pop: guest_base_pop(g),
        cash: guest_base_cash(g),
        trouble: guest_is_trouble(g),
        invited: false,
        morphed: false,
    }
}

impl Guest {
    /// A guest's popularity never exceeds 9.
    #[verifier::type_invariant]
    closed spec fn pop_capped(self) -> bool {
        self.pop <= 9
    }

    pub fn new(gtype: GuestType) -> (g: Self)
        ensures
            g@ == fresh_guest(gtype),
    {
        Self {
            gtype,
            pop: gtype.base_pop(),
            cash: gtype.base_cash(),
            trouble: gtype.is_trouble(),
            invited: false,
            morphed: false,
        }
    }

    pub fn gtype(&self) -> (g: GuestType)
        ensures
            g == self@.gtype,
    {
        self.gtype
    }

    /// The guest's popularity, which is never above 9.
    pub fn pop(&self) -> (p: i32)
        ensures
            p == self@.pop,
            p <= 9,
    {
        proof {
            use_type_invariant(self);
        }
        self.pop
    }

    pub fn cash(&self) -> (c: i32)
        ensures
            c == self@.cash,
    {
        self.cash
    }

    /// 1 when the guest is currently trouble, else 0.
    pub fn trouble(&self) -> (t: i32)
        ensures
            t == (if self@.trouble {
                1i32
            } else {
                0i32
            }),
    {
        if self.trouble {
            1
        } else {
            0
        }
    }

    /// Resets the guest status for a new day.
    pub fn reset(&mut self)
        ensures
            final(self)@ == (GuestState {
                trouble: guest_is_trouble(old(self)@.gtype),
                invited: false,
                ..old(self)@
            }),
    {
        proof {
            use_type_invariant(&*self);
        }
        self.trouble = self.gtype.is_trouble();
        self.invited = false;
    }

    /// The guest as printed: its emoji, `!` when it is currently trouble, a
    /// star when it is a star, then `^` and its popularity and `$` and its
    /// cash, each only when not zero.
    pub fn to_text(&self) -> (s: String)
        ensures
            s@ == guest_text(self@),
    {
        let mut s = String::from_str(self.gtype.emoji());
        if self.trouble {
            s.append("!");
        }
        if self.gtype.is_star() {
            s.append("⭐");
        }
        if self.pop != 0 {
            s.append("^");
            let n = decimal(self.pop as i128);
            s.append(n.as_str());
        }
        if self.cash != 0 {
            s.append("$");
            let n = decimal(self.cash as i128);
            s.append(n.as_str());
        }
        s
    }

    /// Increments its base pop by 1 (by Stylist or Climber), up to 9.
    pub fn increment_base_pop(&mut self)
        ensures
            final(self)@ == (GuestState {
                pop: if old(self)@.pop + 1 < 9 {
                    (old(self)@.pop + 1) as i32
                } else {
                    9i32
                },
                ..old(self)@
            }),
    {
        proof {
            use_type_invariant(&*self);
        }
        let p = self.pop + 1;
        self.pop = if p < 9 {
            p
        } else {
            9
        };
    }
}


/// The state of a Party House game.
#[derive(Clone, Debug)]
pub struct House {
    rng: Rng,
    deck: Vec<Guest>,
    pop: u32,
    cash: u32,
    house_size: u32,
    // internal variables
    ptr: usize,
    total_invited: u32,
    total_trouble: i32,
}

/// The mathematical state of a [`House`].
pub struct HouseState {
    pub rng: RngState,
    pub deck: Seq<Guest>,
    pub pop: u32,
    pub cash: u32,
    pub house_size: u32,
    pub ptr: usize,
    pub total_invited: u32,
    pub total_trouble: i32,
}

impl View for House {
    type V = HouseState;

    closed spec fn view(&self) -> HouseState {
        HouseState {
            rng: self.rng@,
            deck: self.deck@,
            pop: self.pop,
            cash: self.cash,
            house_size: self.house_size,
            ptr: self.ptr,
            total_invited: self.total_invited,
            total_trouble: self.total_trouble,
        }
    }
}

/// The printed guests of a deck, each followed by a space.
pub open spec fn deck_text(deck: Seq<Guest>) -> Seq<char>
    decreases deck.len(),
{
    if deck.len() == 0 {
        Seq::empty()
    } else {
        deck_text(deck.drop_last()) + guest_text(deck.last()@) + " "@
    }
}

/// The printed form of a house (see [`House::to_text`]).
pub open spec fn house_text(h: HouseState) -> Seq<char> {
    "^"@ + decimal_chars(h.pop as int) + " $"@ + decimal_chars(h.cash as int) + " ["@
        + decimal_chars(h.house_size as int) + "] ["@ + deck_text(h.deck) + "] "@ + rng_text(h.rng)
}

/// `v` clamped into `[0, hi]`.
pub open spec fn clamped(v: int, hi: int) -> int {
    if v < 0 {
        0
    } else if v > hi {
        hi
    } else {
        v
    }
}

/// The type of the `i`-th card of the starting deck.
pub open spec fn starting_guest(i: int) -> GuestType {
    if i < 4 {
        GuestType::WildBuddy
    } else if i < 6 {
        GuestType::RichPal
    } else {
        GuestType::OldFriend
    }
}

/// `deck` with every guest reset for a new day.
pub open spec fn reset_deck(deck: Seq<Guest>) -> Seq<GuestState> {
    deck.map_values(
        |g: Guest| GuestState { trouble: guest_is_trouble(g@.gtype), invited: false, ..g@ },
    )
}

impl HouseState {
    /// The bounds that every operation keeps: popularity in `[0, 65]`, cash
    /// in `[0, 30]`, house size in `[5, 34]`.
    pub open spec fn wf(self) -> bool {
        &&& self.pop <= 65
        &&& self.cash <= 30
        &&& 5 <= self.house_size <= 34
    }
}

impl House {
    /// A new game: ten starting guests (four Wild Buddies, two Rich Pals, four
    /// Old Friends), no popularity, no cash, and a house of size 5.
    pub fn new(rng: Rng) -> (h: Self)
        ensures
            h@.rng == rng@,
            h@.deck.len() == 10,
            forall|i: int| 0 <= i < 10 ==> #[trigger] h@.deck[i]@ == fresh_guest(starting_guest(i)),
            h@.pop == 0,
            h@.cash == 0,
            h@.house_size == 5,
            h@.ptr == 0,
            h@.total_invited == 0,
            h@.total_trouble == 0,
            h@.wf(),
    {
        let mut deck: Vec<Guest> = Vec::new();
        let mut i: usize = 0;
        while i < 10
            invariant
                i <= 10,
                deck@.len() == i,
                forall|j: int| 0 <= j < i ==> #[trigger] deck@[j]@ == fresh_guest(starting_guest(j)),
            decreases 10 - i,
        {
            let gtype = if i < 4 {
                GuestType::WildBuddy
            } else if i < 6 {
                GuestType::RichPal
            } else {
                GuestType::OldFriend
            };
            deck.push(Guest::new(gtype));
            i = i + 1;
        }
        Self { rng, deck, pop: 0, cash: 0, house_size: 5, ptr: 0, total_invited: 0, total_trouble: 0 }
    }

    pub fn pop(&self) -> (p: u32)
        ensures
            p == self@.pop,
    {
        self.pop
    }

    pub fn cash(&self) -> (c: u32)
        ensures
            c == self@.cash,
    {
        self.cash
    }

    pub fn house_size(&self) -> (s: u32)
        ensures
            s == self@.house_size,
    {
        self.house_size
    }

    /// The house as printed: `^pop $cash [size] [`, each guest followed by a
    /// space, then `] ` and the generator's `{:?}` text.
    pub fn to_text(&self) -> (s: String)
        ensures
            s@ == house_text(self@),
    {
        let mut s = String::from_str("^");
        let n = decimal(self.pop as i128);
        s.append(n.as_str());
        s.append(" $");
        let n = decimal(self.cash as i128);
        s.append(n.as_str());
        s.append(" [");
        let n = decimal(self.house_size as i128);
        s.append(n.as_str());
        s.append("] [");
        let mut i: usize = 0;
        while i < self.deck.len()
            invariant
                i <= self.deck@.len(),
                s@ == "^"@ + decimal_chars(self.pop as int) + " $"@ + decimal_chars(self.cash as int)
                    + " ["@ + decimal_chars(self.house_size as int) + "] ["@ + deck_text(
                    self.deck@.take(i as int),
                ),
            decreases self.deck@.len() - i,
        {
            let g = self.deck[i].to_text();
            s.append(g.as_str());
            s.append(" ");
            proof {
                assert(self.deck@.take(i + 1).drop_last() =~= self.deck@.take(i as int));
            }
            i = i + 1;
        }
        assert(self.deck@.take(i as int) =~= self.deck@);
        s.append("] ");
        let r = self.rng.debug_text();
        s.append(r.as_str());
        s
    }

    pub fn deck_size(&self) -> (n: usize)
        ensures
            n == self@.deck.len(),
    {
        self.deck.len()
    }

    /// Adds `amt` pop, clamped into range `[0, 65]`.
    pub fn add_pop(&mut self, amt: i32)
        ensures
            final(self)@ == (HouseState { pop: clamped(old(self)@.pop + amt, 65) as u32, ..old(self)@ }),
            old(self)@.wf() ==> final(self)@.wf(),
    {
        let v: i64 = self.pop as i64 + amt as i64;
        self.pop = if v < 0 {
            0
        } else if v > 65 {
            65
        } else {
            v as u32
        };
    }

    /// Adds `cash` pop, clamped into range `[0, 30]`,
    /// and deducting 7 pop if cash tries to go negative.
    pub fn add_cash(&mut self, amt: i32)
        ensures
            old(self)@.cash + amt < 0 || old(self)@.cash + amt > u32::MAX ==> final(self)@ == (
            HouseState { cash: 0, pop: clamped(old(self)@.pop - 7, 65) as u32, ..old(self)@ }),
            0 <= old(self)@.cash + amt <= u32::MAX ==> final(self)@ == (HouseState {
                cash: clamped(old(self)@.cash + amt, 30) as u32,
                ..old(self)@
            }),
            old(self)@.wf() ==> final(self)@.wf(),
    {
        let v: i64 = self.cash as i64 + amt as i64;
        if v < 0 || v > 0xffff_ffff {
            self.cash = 0;
            self.add_pop(-7);
            return ;
        }
        self.cash = if v > 30 {
            30
        } else {
            v as u32
        };
    }

    /// Returns whether the house can expand (smaller than 34).
    pub fn can_expand(&self) -> (b: bool)
        ensures
            b == (self@.house_size < 34),
    {
        self.house_size < 34
    }

    /// Returns cash cost to expand the house by 1.
    /// This does not reflect the fact that the house cannot expand beyond 34.
    pub fn expansion_cost(&self) -> (c: u32)
        requires
            self@.house_size >= 3,
        ensures
            c == clamped(self@.house_size - 3, 12),
    {
        let c = self.house_size - 3;
        if c < 12 {
            c
        } else {
            12
        }
    }

    /// Tries to purchase this guest type.
    /// Returns whether it succeeded, i.e. there was enough pop.
    /// Does not consider whether there were already 4 of the same type.
    pub fn buy_guest(&mut self, gtype: GuestType) -> (bought: bool)
        requires
            old(self)@.rng.num_rolls < usize::MAX,
        ensures
            bought == (old(self)@.pop >= guest_cost(gtype)),
            !bought ==> final(self)@ == old(self)@,
            bought ==> final(self)@.pop == old(self)@.pop - guest_cost(gtype),
            bought ==> final(self)@.deck.len() == old(self)@.deck.len() + 1,
            bought ==> final(self)@.deck.take(old(self)@.deck.len() as int) == old(self)@.deck,
            bought ==> final(self)@.deck.last()@ == fresh_guest(gtype),
            bought ==> final(self)@.rng == old(self)@.rng.stepped(),
            bought ==> final(self)@ == (HouseState {
                pop: final(self)@.pop,
                deck: final(self)@.deck,
                rng: final(self)@.rng,
                ..old(self)@
            }),
            old(self)@.wf() ==> final(self)@.wf(),
    {
        let cost = gtype.cost();
        if self.pop < cost {
            return false;
        }
        self.pop = self.pop - cost;
        self.deck.push(Guest::new(gtype));
        self.rng.roll();
        assert(self.deck@.take(old(self)@.deck.len() as int) =~= old(self)@.deck);
        true
    }

    /// Tries to expand the house.
    /// Returns whether it succeeded, i.e. there was enough cash and space.
    pub fn expand(&mut self) -> (expanded: bool)
        requires
            old(self)@.house_size >= 3,
        ensures
            expanded == (old(self)@.cash >= clamped(old(self)@.house_size - 3, 12)
                && old(self)@.house_size < 34),
            !expanded ==> final(self)@ == old(self)@,
            expanded ==> final(self)@ == (HouseState {
                cash: (old(self)@.cash - clamped(old(self)@.house_size - 3, 12)) as u32,
                house_size: (old(self)@.house_size + 1) as u32,
                ..old(self)@
            }),
            old(self)@.wf() ==> final(self)@.wf(),
    {
        let cost = self.expansion_cost();
        if self.cash < cost || !self.can_expand() {
            return false;
        }
        self.cash = self.cash - cost;
        self.house_size = self.house_size + 1;
        true
    }

    fn shuffle_deck(&mut self)
        requires
            old(self)@.rng.shuffle_fits(old(self)@.deck.len()),
        ensures
            final(self)@ == (HouseState {
                deck: old(self)@.rng.shuffled(old(self)@.deck, old(self)@.deck.len()),
                rng: old(self)@.rng.advanced(
                    if old(self)@.deck.len() > 1 { (old(self)@.deck.len() - 1) as nat } else { 0 },
                ),
                ..old(self)@
            }),
    {
        self.rng.shuffle(self.deck.as_mut_slice());
    }

    /// Shuffles the deck and resets every guest for a new day.
    pub fn start_day(&mut self)
        requires
            old(self)@.rng.shuffle_fits(old(self)@.deck.len()),
        ensures
            final(self)@.deck.map_values(|g: Guest| g@) == reset_deck(
                old(self)@.rng.shuffled(old(self)@.deck, old(self)@.deck.len()),
            ),
            final(self)@.rng == old(self)@.rng.advanced(
                if old(self)@.deck.len() > 1 { (old(self)@.deck.len() - 1) as nat } else { 0 },
            ),
            final(self)@.pop == old(self)@.pop,
            final(self)@.cash == old(self)@.cash,
            final(self)@.house_size == old(self)@.house_size,
            final(self)@.ptr == 0,
            final(self)@.total_invited == 0,
            final(self)@.total_trouble == 0,
            old(self)@.wf() ==> final(self)@.wf(),
    {
        self.shuffle_deck();
        let ghost shuffled = self.deck@;
        let mut i: usize = 0;
        while i < self.deck.len()
            invariant
                i <= shuffled.len(),
                self.deck@.len() == shuffled.len(),
                forall|j: int| 0 <= j < i ==> #[trigger] self.deck@[j]@ == reset_deck(shuffled)[j],
                forall|j: int| i <= j < shuffled.len() ==> #[trigger] self.deck@[j] == shuffled[j],
                self@.rng == old(self)@.rng.advanced(
                    if old(self)@.deck.len() > 1 { (old(self)@.deck.len() - 1) as nat } else { 0 },
                ),
                shuffled == old(self)@.rng.shuffled(old(self)@.deck, old(self)@.deck.len()),
                self@.pop == old(self)@.pop,
                self@.cash == old(self)@.cash,
                self@.house_size == old(self)@.house_size,
            decreases shuffled.len() - i,
        {
            let mut g = self.deck[i];
            g.reset();
            self.deck.set(i, g);
            i = i + 1;
        }
        self.ptr = 0;
        self.total_invited = 0;
        self.total_trouble = 0;
        assert(self@.deck.map_values(|g: Guest| g@) =~= reset_deck(shuffled));
    }

    // -------- TAS UTILITIES ---------

    /// Returns the deck in order. This should only be used for TAS.
    pub fn cheat_deck(&self) -> (deck: &[Guest])
        ensures
            deck@ == self@.deck,
    {
        self.deck.as_slice()
    }

    /// Returns the guest at position `i`. This should only be used for TAS.
    pub fn cheat_guest(&self, i: usize) -> (g: &Guest)
        requires
            i < self@.deck.len(),
        ensures
            *g == self@.deck[i as int],
    {
        &self.deck[i]
    }

    /// Returns the guest at position `i`. This should only be used for TAS.
    pub fn cheat_guest_mut(&mut self, i: usize) -> (g: &mut Guest)
        requires
            i < old(self)@.deck.len(),
        ensures
            *g == old(self)@.deck[i as int],
            final(self)@ == (HouseState {
                deck: old(self)@.deck.update(i as int, *final(g)),
                ..old(self)@
            }),
    {
        &mut self.deck[i]
    }
}

} // verus!
