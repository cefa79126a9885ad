use vstd::prelude::*;
use crate::party_house::guest::{Guest, GuestType, new_guest};
use crate::rng::Rng;

verus! {

/// The state of an early Party House model.
#[derive(Clone)]
pub struct House {
    pub deck: Vec<Guest>,
    pub pop: u32,
    pub cash: u32,
    pub house_size: u32,
    pub rng: Rng,
}

/// `v` clamped into `[0, hi]`.
pub open spec fn clamp_to(v: int, hi: int) -> int {
    if v < 0 {
        0
    } else if v > hi {
        hi
    } else {
        v
    }
}

/// The `i`-th card of the starting deck.
pub open spec fn starting_card(i: int) -> Guest {
    if i < 4 {
        new_guest(GuestType::WildBuddy)
    } else if i < 6 {
        new_guest(GuestType::RichPal)
    } else {
        new_guest(GuestType::OldFriend)
    }
}

/// The deck with every guest's trouble flag reset to its kind's default.
pub open spec fn troubles_reset(deck: Seq<Guest>) -> Seq<Guest> {
    deck.map_values(|g: Guest| Guest { trouble: g.gtype == GuestType::WildBuddy, ..g })
}

impl House {
    /// Ten starting guests (four Wild Buddies, two Rich Pals, four Old
    /// Friends), no popularity, no cash, and a house of size 5.
    pub fn new(rng: Rng) -> (h: Self)
        ensures
            h.deck@ == Seq::new(10, |i: int| starting_card(i)),
            h.pop == 0,
            h.cash == 0,
            h.house_size == 5,
            h.rng@ == rng@,
    {
        let mut deck: Vec<Guest> = Vec::new();
        let mut i: usize = 0;
        while i < 10
            invariant
                i <= 10,
                deck@ == Seq::new(i as nat, |j: int| starting_card(j)),
            decreases 10 - i,
        {
            let gtype = if i < 4 {
                GuestType::WildBuddy
            } else if i < 6 {
                GuestType::RichPal
            } else {
                GuestType::OldFriend
            };
            deck.push(Guest::new(gtype));
            assert(deck@ =~= Seq::new((i + 1) as nat, |j: int| starting_card(j)));
            i = i + 1;
        }
        Self { deck, pop: 0, cash: 0, house_size: 5, rng }
    }

    fn shuffle_deck(&mut self)
        requires
            old(self).rng@.shuffle_fits(old(self).deck@.len()),
        ensures
            final(self).deck@ == old(self).rng@.shuffled(old(self).deck@, old(self).deck@.len()),
            final(self).rng@ == old(self).rng@.advanced(
                if old(self).deck@.len() > 1 { (old(self).deck@.len() - 1) as nat } else { 0 },
            ),
            final(self).pop == old(self).pop,
            final(self).cash == old(self).cash,
            final(self).house_size == old(self).house_size,
    {
        self.rng.shuffle(self.deck.as_mut_slice());
    }

    /// Shuffles the deck and resets every guest's trouble flag.
    pub fn start_day(&mut self)
        requires
            old(self).rng@.shuffle_fits(old(self).deck@.len()),
        ensures
            final(self).deck@ == troubles_reset(
                old(self).rng@.shuffled(old(self).deck@, old(self).deck@.len()),
            ),
            final(self).rng@ == old(self).rng@.advanced(
                if old(self).deck@.len() > 1 { (old(self).deck@.len() - 1) as nat } else { 0 },
            ),
            final(self).pop == old(self).pop,
            final(self).cash == old(self).cash,
            final(self).house_size == old(self).house_size,
    {
        self.shuffle_deck();
        let ghost shuffled = self.deck@;
        let mut i: usize = 0;
        while i < self.deck.len()
            invariant
                i <= shuffled.len(),
                self.deck@.len() == shuffled.len(),
                forall|j: int| 0 <= j < i ==> #[trigger] self.deck@[j] == troubles_reset(shuffled)[j],
                forall|j: int| i <= j < shuffled.len() ==> #[trigger] self.deck@[j] == shuffled[j],
                shuffled == old(self).rng@.shuffled(old(self).deck@, old(self).deck@.len()),
                self.rng@ == old(self).rng@.advanced(
                    if old(self).deck@.len() > 1 { (old(self).deck@.len() - 1) as nat } else { 0 },
                ),
                self.pop == old(self).pop,
                self.cash == old(self).cash,
                self.house_size == old(self).house_size,
            decreases shuffled.len() - i,
        {
            let mut guest = self.deck[i];
            guest.trouble = guest.gtype.is_trouble();
            self.deck.set(i, guest);
            i = i + 1;
        }
        assert(self.deck@ =~= troubles_reset(shuffled));
    }

    /// The cash cost of expanding the house by one.
    pub fn expansion_cost(&self) -> (c: u32)
        requires
            self.house_size >= 3,
        ensures
            c == clamp_to(self.house_size - 3, 12),
    {
        let c = self.house_size - 3;
        if c < 12 {
            c
        } else {
            12
        }
    }

    /// Adds `amt` pop, clamped into `[0, 65]`.
    pub fn add_pop(&mut self, amt: i32)
        ensures
            final(self).pop == clamp_to(old(self).pop + amt, 65),
            final(self).cash == old(self).cash,
            final(self).house_size == old(self).house_size,
            final(self).deck@ == old(self).deck@,
            final(self).rng@ == old(self).rng@,
    {
        let v: i64 = self.pop as i64 + amt as i64;
        let new_pop: u32 = if v < 0 {
            0
        } else if v > 0xffff_ffff {
            0xffff_ffff
        } else {
            v as u32
        };
        self.pop = if new_pop < 65 {
            new_pop
        } else {
            65
        };
    }

    /// Adds `amt` cash, clamped at 30; when cash would go negative it is set
    /// to 0 and 7 pop is deducted instead.
    pub fn add_cash(&mut self, amt: i32)
        ensures
            old(self).cash + amt < 0 || old(self).cash + amt > u32::MAX ==> final(self).cash == 0
                && final(self).pop == clamp_to(old(self).pop - 7, 65),
            0 <= old(self).cash + amt <= u32::MAX ==> final(self).cash == clamp_to(
                old(self).cash + amt,
                30,
            ) && final(self).pop == old(self).pop,
            final(self).house_size == old(self).house_size,
            final(self).deck@ == old(self).deck@,
            final(self).rng@ == old(self).rng@,
    {
        let v: i64 = self.cash as i64 + amt as i64;
        if v < 0 || v > 0xffff_ffff {
            self.add_pop(-7);
            self.cash = 0;
            return ;
        }
        self.cash = if v < 30 {
            v as u32
        } else {
            30
        };
    }

    /// Tries to buy a guest; returns whether there was enough pop.
    pub fn buy_guest(&mut self, gtype: GuestType) -> (bought: bool)
        requires
            old(self).rng@.num_rolls < usize::MAX,
        ensures
            bought == (old(self).pop >= gtype_cost(gtype)),
            bought ==> final(self).pop == old(self).pop - gtype_cost(gtype) && final(self).deck@
                == old(self).deck@.push(new_guest(gtype)) && final(self).rng@
                == old(self).rng@.stepped(),
            !bought ==> final(self).pop == old(self).pop && final(self).deck@ == old(self).deck@
                && final(self).rng@ == old(self).rng@,
            final(self).cash == old(self).cash,
            final(self).house_size == old(self).house_size,
    {
        let cost = gtype.cost();
        if self.pop < cost {
            return false;
        }
        self.pop = self.pop - cost;
        self.deck.push(Guest::new(gtype));
        self.rng.roll();
        true
    }

    /// Tries to expand the house; returns whether there was enough cash.
    pub fn expand(&mut self) -> (expanded: bool)
        requires
            old(self).house_size >= 3,
            old(self).cash >= clamp_to(old(self).house_size - 3, 12) ==> old(self).house_size
                < u32::MAX,
        ensures
            expanded == (old(self).cash >= clamp_to(old(self).house_size - 3, 12)),
            expanded ==> final(self).cash == old(self).cash - clamp_to(old(self).house_size - 3, 12)
                && final(self).house_size == old(self).house_size + 1,
            !expanded ==> final(self).cash == old(self).cash && final(self).house_size == old(
                self,
            ).house_size,
            final(self).pop == old(self).pop,
            final(self).deck@ == old(self).deck@,
            final(self).rng@ == old(self).rng@,
    {
        let cost = self.expansion_cost();
        if self.cash < cost {
            return false;
        }
        self.cash = self.cash - cost;
        self.house_size = self.house_size + 1;
        true
    }
}

/// The popularity cost of a guest kind.
pub open spec fn gtype_cost(g: GuestType) -> u32 {
    crate::party_house::guest::type_cost(g)
}

} // verus!
