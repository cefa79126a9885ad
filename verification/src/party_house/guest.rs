use vstd::prelude::*;
use crate::text::{decimal, decimal_chars};
use vstd::string::StringExecFns;

verus! {

/// The guest kinds of the early Party House model.
#[derive(Clone, Copy, PartialOrd, Ord, PartialEq, Eq, Structural, Hash)]
pub enum GuestType {
    // defaults
    WildBuddy,
    OldFriend,
    RichPal,
    // intermediates
    CuteDog,
    // stars
    Mermaid,
    Alien,
    Superhero,
}

/// The short label of a guest kind; stars are marked with `*`.
pub open spec fn type_label(g: GuestType) -> Seq<char> {
    match g {
        GuestType::WildBuddy => "WIL"@,
        GuestType::OldFriend => "OLD"@,
        GuestType::RichPal => "RIC"@,
        GuestType::CuteDog => "CUT"@,
        GuestType::Mermaid => "*MER"@,
        GuestType::Alien => "*ALI"@,
        GuestType::Superhero => "*SUP"@,
    }
}

/// The popularity cost to add a guest to the rolodex.
pub open spec fn type_cost(g: GuestType) -> u32 {
    match g {
        GuestType::WildBuddy => 0,
        GuestType::OldFriend => 2,
        GuestType::RichPal => 3,
        GuestType::CuteDog => 7,
        GuestType::Mermaid => 35,
        GuestType::Alien => 40,
        GuestType::Superhero => 50,
    }
}

/// The popularity a guest pays out by default.
pub open spec fn type_default_pop(g: GuestType) -> i32 {
    match g {
        GuestType::WildBuddy => 2,
        GuestType::OldFriend => 1,
        GuestType::RichPal => 0,
        GuestType::CuteDog => 2,
        GuestType::Mermaid => 0,
        GuestType::Alien => 0,
        GuestType::Superhero => 3,
    }
}

/// The cash a guest pays out by default.
pub open spec fn type_default_cash(g: GuestType) -> i32 {
    match g {
        GuestType::RichPal => 1,
        _ => 0,
    }
}

/// The price list and default payouts of the smaller guest set: prices in
/// popularity from 0 (Wild Buddy) to 50 (Superhero); only the Rich Pal pays
/// cash by default.
pub proof fn lemma_type_table(g: GuestType)
    ensures
        type_cost(GuestType::WildBuddy) == 0,
        type_cost(GuestType::OldFriend) == 2,
        type_cost(GuestType::RichPal) == 3,
        type_cost(GuestType::CuteDog) == 7,
        type_cost(GuestType::Mermaid) == 35,
        type_cost(GuestType::Alien) == 40,
        type_cost(GuestType::Superhero) == 50,
        type_default_pop(GuestType::WildBuddy) == 2,
        type_default_pop(GuestType::OldFriend) == 1,
        type_default_pop(GuestType::RichPal) == 0,
        type_default_pop(GuestType::CuteDog) == 2,
        type_default_pop(GuestType::Mermaid) == 0,
        type_default_pop(GuestType::Alien) == 0,
        type_default_pop(GuestType::Superhero) == 3,
        type_default_cash(g) == (if g == GuestType::RichPal {
            1i32
        } else {
            0i32
        }),
{
}

impl GuestType {
    /// The short label used when printing a guest.
    pub fn label(&self) -> (s: &str)
        ensures
            s@ == type_label(*self),
    {
        match self {
            Self::WildBuddy => "WIL",
            Self::OldFriend => "OLD",
            Self::RichPal => "RIC",
            Self::CuteDog => "CUT",
            Self::Mermaid => "*MER",
            Self::Alien => "*ALI",
            Self::Superhero => "*SUP",
        }
    }

    /// Whether the guest is potentially a trouble.
    pub fn is_trouble(&self) -> (t: bool)
        ensures
            t == (*self == GuestType::WildBuddy),
    {
        matches!(self, Self::WildBuddy)
    }

    /// Whether the guest is a white flag (cancels a trouble).
    pub fn is_flag(&self) -> (f: bool)
        ensures
            f == (*self == GuestType::CuteDog),
    {
        matches!(self, Self::CuteDog)
    }

    /// Whether the guest is a star.
    pub fn is_star(&self) -> (s: bool)
        ensures
            s == (type_cost(*self) >= 20),
    {
        self.cost() >= 20
    }

    /// Base popularity payout by default.
    pub fn default_pop(&self) -> (p: i32)
        ensures
            p == type_default_pop(*self),
    {
        match self {
            Self::WildBuddy => 2,
            Self::OldFriend => 1,
            Self::RichPal => 0,
            Self::CuteDog => 2,
            Self::Mermaid => 0,
            Self::Alien => 0,
            Self::Superhero => 3,
        }
    }

    /// Base cash payout by default.
    pub fn default_cash(&self) -> (c: i32)
        ensures
            c == type_default_cash(*self),
    {
        match self {
            Self::WildBuddy => 0,
            Self::OldFriend => 0,
            Self::RichPal => 1,
            Self::CuteDog => 0,
            Self::Mermaid => 0,
            Self::Alien => 0,
            Self::Superhero => 0,
        }
    }

    /// Popularity cost to add the guest to rolodex.
    pub fn cost(&self) -> (c: u32)
        ensures
            c == type_cost(*self),
    {
        match self {
            Self::WildBuddy => 0,
            Self::OldFriend => 2,
            Self::RichPal => 3,
            Self::CuteDog => 7,
            Self::Mermaid => 35,
            Self::Alien => 40,
            Self::Superhero => 50,
        }
    }
}

/// The printed form of a guest (see [`Guest::to_text`]).
pub open spec fn guest_text(g: Guest) -> Seq<char> {
    type_label(g.gtype) + (if g.trouble {
        "!"@
    } else {
        Seq::empty()
    }) + (if g.pop != 0 {
        "^"@ + decimal_chars(g.pop as int)
    } else {
        Seq::empty()
    }) + (if g.cash != 0 {
        "$"@ + decimal_chars(g.cash as int)
    } else {
        Seq::empty()
    })
}

/// A guest card.
#[derive(Clone, Copy, PartialOrd, Ord, PartialEq, Eq, Structural, Hash)]
pub struct Guest {
    pub gtype: GuestType,
    pub pop: i32,
    pub cash: i32,
    // Whether the guest is *currently* a trouble.
    // This can be removed by a counselor.
    pub trouble: bool,
}

/// A fresh guest of kind `g`.
pub open spec fn new_guest(g: GuestType) -> Guest {
    Guest {
        gtype: g,
        pop: type_default_pop(g),
        cash: type_default_cash(g),
        trouble: g == GuestType::WildBuddy,
    }
}

impl Guest {
    /// The guest as printed: its type's label, `!` when it is currently
    /// trouble, then `^` and its popularity and `$` and its cash, each only
    /// when not zero.
    pub fn to_text(&self) -> (s: String)
        ensures
            s@ == guest_text(*self),
    {
        let mut s = String::from_str(self.gtype.label());
        if self.trouble {
            s.append("!");
        }
        if self.pop != 0 {
            s.append("^");
            let n = decimal(self.pop as i128);
            s.append(n.as_str());
        }
        if self.cash != 0 {
            s.append("$");
            let n = decimal(self.cash as i128);
            s.append(n.as_str());
        }
        s
    }

    pub fn new(gtype: GuestType) -> (g: Self)
        ensures
            g == new_guest(gtype),
    {
        Self {
            gtype,
            pop: gtype.default_pop(),
            cash: gtype.default_cash(),
            trouble: gtype.is_trouble(),
        }
    }
}

} // verus!
