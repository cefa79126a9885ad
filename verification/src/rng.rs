use vstd::prelude::*;
use crate::text::{decimal, decimal_chars};
use vstd::string::StringExecFns;

verus! {

/// A two-lane multiply-with-carry random number generator.
#[derive(Debug, Clone, PartialEq, Eq, Hash)]
pub struct Rng {
    pub seed: u64,
    pub num_rolls: usize,
    s1: u64,
    s2: u64,
}

/// One multiply-with-carry step of a lane, with multiplier `mult`.
pub open spec fn lane_step(s: u64, mult: u64) -> u64 {
    (mult * (s & 0xffff) + ((s & 0xffff0000) >> 16u64)) as u64
}

/// The value produced from the two lanes after a step.
pub open spec fn lane_output(s1: u64, s2: u64) -> u64 {
    ((((s1 & 0xffff) << 16u64) + s2) as u64) & 0xffff_ffff
}

proof fn lemma_lane_step_bound(s: u64, mult: u64)
    requires
        mult <= 65535,
    ensures
        lane_step(s, mult) < 0x1_0000_0000,
        lane_step(s, mult) == mult * (s & 0xffff) + ((s & 0xffff0000) >> 16u64),
{
    assert(s & 0xffff <= 0xffff) by (bit_vector);
    assert((s & 0xffff0000) >> 16u64 <= 0xffff) by (bit_vector);
    let a = s & 0xffff;
    assert(mult * a <= 65535 * 65535) by (nonlinear_arith)
        requires
            mult <= 65535,
            a <= 0xffff,
    ;
}

proof fn lemma_lane_output_bound(s1: u64, s2: u64)
    requires
        s2 < 0x1_0000_0000,
    ensures
        lane_output(s1, s2) < 0x1_0000_0000,
        ((s1 & 0xffff) << 16u64) <= 0xffff0000,
{
    assert(((s1 & 0xffff) << 16u64) <= 0xffff0000) by (bit_vector);
    let x = ((((s1 & 0xffff) << 16u64) + s2) as u64);
    assert(x & 0xffff_ffff <= 0xffff_ffff) by (bit_vector);
}

/// `s` with the items at `i` and `j` exchanged.
pub open spec fn swapped<T>(s: Seq<T>, i: int, j: int) -> Seq<T> {
    s.update(i, s[j]).update(j, s[i])
}

pub proof fn lemma_swapped_multiset<T>(s: Seq<T>, i: int, j: int)
    requires
        0 <= i < s.len(),
        0 <= j < s.len(),
    ensures
        swapped(s, i, j).to_multiset() == s.to_multiset(),
        swapped(s, i, j).len() == s.len(),
{
    broadcast use vstd::seq_lib::to_multiset_update, vstd::seq_lib::to_multiset_contains;
    broadcast use vstd::multiset::group_multiset_axioms;
    let s1 = s.update(i, s[j]);
    let m = s.to_multiset();
    assert(s.contains(s[i]));
    assert(s.contains(s[j]));
    assert(s1.to_multiset() == s.to_multiset().insert(s[j]).remove(s[i]));
    assert(swapped(s, i, j).to_multiset() == s1.to_multiset().insert(s[i]).remove(s1[j]));
    if i == j {
        assert(s1 =~= s);
        assert(swapped(s, i, j) =~= s);
    } else {
        assert(s1[j] == s[j]);
        let m1 = m.insert(s[j]).remove(s[i]);
        let m2 = m1.insert(s[i]).remove(s[j]);
        assert(m.count(s[i]) > 0);
        assert(m.count(s[j]) > 0);
        assert forall|x: T| m2.count(x) == m.count(x) by {
            if x == s[i] && x == s[j] {
            } else if x == s[i] {
            } else if x == s[j] {
            } else {
            }
        }
        assert(m2 =~= m);
    }
}

/// The mathematical state of a [`Rng`].
pub struct RngState {
    pub seed: u64,
    pub num_rolls: usize,
    pub s1: u64,
    pub s2: u64,
}

impl RngState {
    /// The state after one roll (the roll count is increased by one).
    pub open spec fn stepped(self) -> RngState {
        RngState {
            seed: self.seed,
            num_rolls: (self.num_rolls + 1) as usize,
            s1: lane_step(self.s1, 65192),
            s2: lane_step(self.s2, 64473),
        }
    }

    /// The value returned by the next roll from this state.
    pub open spec fn next_value(self) -> u64 {
        lane_output(lane_step(self.s1, 65192), lane_step(self.s2, 64473))
    }

    /// The state after `n` rolls.
    pub open spec fn advanced(self, n: nat) -> RngState
        decreases n,
    {
        if n == 0 {
            self
        } else {
            self.stepped().advanced((n - 1) as nat)
        }
    }

    /// The value returned by `roll_int(l, r)` from this state.
    pub open spec fn int_value(self, l: u64, r: u64) -> int {
        l + ((r - l + 1) * self.next_value()) / 0x1_0000_0000
    }

    /// Whether `roll_int(l, r)` from this state stays within 64-bit arithmetic.
    pub open spec fn int_fits(self, l: u64, r: u64) -> bool {
        &&& self.num_rolls < usize::MAX
        &&& l <= r
        &&& r - l + 1 <= u64::MAX
        &&& (r - l + 1) * self.next_value() <= u64::MAX
    }

    /// Whether shuffling a slice of length `n` from this state stays within
    /// 64-bit arithmetic.
    pub open spec fn shuffle_fits(self, n: nat) -> bool
        decreases n,
    {
        n <= 1 || (self.int_fits(0, (n - 1) as u64) && self.stepped().shuffle_fits((n - 1) as nat))
    }

    /// The order produced by shuffling the first `n` items of `s`
    /// (Fisher-Yates, from the back) from this state.
    pub open spec fn shuffled<T>(self, s: Seq<T>, n: nat) -> Seq<T>
        decreases n,
    {
        if n <= 1 {
            s
        } else {
            let i = (n - 1) as int;
            let j = self.int_value(0, i as u64);
            self.stepped().shuffled(swapped(s, i, j), (n - 1) as nat)
        }
    }

    /// The state right after seeding, before the warm-up rolls.
    pub open spec fn seeded(seed: u64) -> RngState {
        RngState {
            seed,
            num_rolls: 0,
            s1: 1253089769u64 ^ (seed & 1431655765u64),
            s2: 2342871706u64 ^ (seed & !1431655765u64),
        }
    }

    /// The generator created from `seed`: twenty warm-up rolls after seeding.
    pub open spec fn from_seed(seed: u64) -> RngState {
        Self::seeded(seed).advanced(20)
    }

    /// Every roll is below 2^32.
    pub proof fn lemma_next_value_bound(self)
        ensures
            self.next_value() < 0x1_0000_0000,
    {
        lemma_lane_step_bound(self.s1, 65192);
        lemma_lane_step_bound(self.s2, 64473);
        lemma_lane_output_bound(lane_step(self.s1, 65192), lane_step(self.s2, 64473));
    }

    /// Shuffling stays within 64-bit arithmetic for up to 2^32 items, as long
    /// as the roll count does not run out.
    pub proof fn lemma_shuffle_fits(self, n: nat)
        requires
            n <= 0x1_0000_0000,
            self.num_rolls + n <= usize::MAX,
        ensures
            self.shuffle_fits(n),
        decreases n,
    {
        if n > 1 {
            self.lemma_next_value_bound();
            let v = self.next_value();
            assert(n * v <= 0x1_0000_0000 * 0xffff_ffff) by (nonlinear_arith)
                requires
                    n <= 0x1_0000_0000,
                    v < 0x1_0000_0000,
            ;
            self.stepped().lemma_shuffle_fits((n - 1) as nat);
        }
    }

    pub proof fn lemma_advanced_unfold(self, n: nat)
        requires
            n > 0,
        ensures
            self.advanced(n) == self.advanced((n - 1) as nat).stepped(),
        decreases n,
    {
        reveal_with_fuel(RngState::advanced, 2);
        if n > 1 {
            self.stepped().lemma_advanced_unfold((n - 1) as nat);
        }
    }

    pub proof fn lemma_advanced_rolls(self, n: nat)
        requires
            self.num_rolls + n <= usize::MAX,
        ensures
            self.advanced(n).num_rolls == self.num_rolls + n,
            self.advanced(n).seed == self.seed,
        decreases n,
    {
        if n > 0 {
            self.stepped().lemma_advanced_rolls((n - 1) as nat);
        }
    }
}

impl View for Rng {
    type V = RngState;

    closed spec fn view(&self) -> RngState {
        RngState { seed: self.seed, num_rolls: self.num_rolls, s1: self.s1, s2: self.s2 }
    }
}

impl Rng {
    /// The seed the generator was created from.
    pub fn seed(&self) -> (seed: u64)
        ensures
            seed == self@.seed,
    {
        self.seed
    }

    /// How many values the generator has produced, the warm-up rolls included.
    pub fn num_rolls(&self) -> (n: usize)
        ensures
            n == self@.num_rolls,
    {
        self.num_rolls
    }

    /// Creates a generator from `seed` and performs the twenty warm-up rolls.
    pub fn new(seed: u64) -> (rng: Self)
        ensures
            rng@ == RngState::from_seed(seed),
            rng@.seed == seed,
            rng@.num_rolls == 20,
    {
        let mask: u64 = 1431655765;
        let s1: u64 = 1253089769 ^ (seed & mask);
        let s2: u64 = 2342871706 ^ (seed & !mask);
        let mut rng = Rng { seed, num_rolls: 0, s1, s2 };
        let ghost start = rng@;
        assert(start == RngState::seeded(seed));
        let mut k: usize = 0;
        while k < 20
            invariant
                k <= 20,
                rng@ == start.advanced(k as nat),
                rng@.num_rolls == k,
                rng@.seed == seed,
            decreases 20 - k,
        {
            rng.roll();
            proof {
                start.lemma_advanced_unfold((k + 1) as nat);
            }
            k = k + 1;
        }
        rng
    }

    /// Advances the generator and returns a value in `[0, 2^32)`.
    pub fn roll(&mut self) -> (val: u64)
        requires
            old(self)@.num_rolls < usize::MAX,
        ensures
            final(self)@ == old(self)@.stepped(),
            final(self)@.num_rolls == old(self)@.num_rolls + 1,
            final(self)@.seed == old(self)@.seed,
            val == old(self)@.next_value(),
            val < 0x1_0000_0000,
    {
        proof {
            lemma_lane_step_bound(self.s1, 65192);
            lemma_lane_step_bound(self.s2, 64473);
        }
        self.num_rolls = self.num_rolls + 1;
        self.s1 = (65192 * (self.s1 & 65535)) + ((self.s1 & 4294901760) >> 16);
        self.s2 = (64473 * (self.s2 & 65535)) + ((self.s2 & 4294901760) >> 16);
        proof {
            lemma_lane_output_bound(self.s1, self.s2);
        }
        (((self.s1 & 65535) << 16) + self.s2) & 4294967295
    }

    /// Rolls a value in the inclusive range `[l, r]`, scaling the raw roll.
    pub fn roll_int(&mut self, l: u64, r: u64) -> (val: u64)
        requires
            old(self)@.int_fits(l, r),
        ensures
            final(self)@ == old(self)@.stepped(),
            val == old(self)@.int_value(l, r),
            l <= val <= r,
    {
        let v = self.roll();
        let width = r - l + 1;
        let numerator = width * v;
        proof {
            assert(numerator / 0x1_0000_0000 < width) by (nonlinear_arith)
                requires
                    numerator == width * v,
                    v < 0x1_0000_0000,
                    width >= 1,
            ;
        }
        l + numerator / 4294967296
    }

    /// Shuffles `vals` in place (Fisher-Yates from the back), rolling once per
    /// position after the first.
    pub fn shuffle<T>(&mut self, vals: &mut [T])
        requires
            old(self)@.shuffle_fits(old(vals)@.len()),
        ensures
            final(vals)@ == old(self)@.shuffled(old(vals)@, old(vals)@.len()),
            final(vals)@.to_multiset() == old(vals)@.to_multiset(),
            final(vals)@.len() == old(vals)@.len(),
            final(self)@ == old(self)@.advanced(
                if old(vals)@.len() > 1 { (old(vals)@.len() - 1) as nat } else { 0 },
            ),
    {
        let ghost r0 = self@;
        let ghost s0 = vals@;
        let n = vals.len();
        let mut i = n;
        while i > 1
            invariant
                i <= n,
                n > 1 ==> i >= 1,
                n == s0.len(),
                vals@.len() == n,
                self@.shuffle_fits(i as nat),
                r0.shuffled(s0, n as nat) == self@.shuffled(vals@, i as nat),
                vals@.to_multiset() == s0.to_multiset(),
                self@ == r0.advanced(if n > 1 { (n - i) as nat } else { 0 }),
            decreases i,
        {
            i = i - 1;
            let j = self.roll_int(0, i as u64) as usize;
            proof {
                lemma_swapped_multiset(vals@, i as int, j as int);
                r0.lemma_advanced_unfold((n - i) as nat);
            }
            vals.swap(i, j);
        }
        proof {
            if n <= 1 {
                assert(vals@ == s0);
            }
        }
    }

    /// Rolls until exactly `target_num` rolls have been made in total.
    pub fn roll_onto(&mut self, target_num: usize)
        requires
            old(self)@.num_rolls <= target_num,
        ensures
            final(self)@ == old(self)@.advanced((target_num - old(self)@.num_rolls) as nat),
            final(self)@.num_rolls == target_num,
            final(self)@.seed == old(self)@.seed,
    {
        let ghost r0 = self@;
        let count = target_num - self.num_rolls;
        let mut k: usize = 0;
        while k < count
            invariant
                k <= count,
                count == target_num - r0.num_rolls,
                r0.num_rolls <= target_num,
                self@ == r0.advanced(k as nat),
                self@.num_rolls == r0.num_rolls + k,
                self@.seed == r0.seed,
            decreases count - k,
        {
            self.roll();
            proof {
                r0.lemma_advanced_unfold((k + 1) as nat);
            }
            k = k + 1;
        }
    }
}


/// `<[T]>::swap` exchanges the two items at the given positions; it panics
/// when either position is out of bounds.
pub assume_specification<Item>[ <[Item]>::swap ](slice: &mut [Item], a: usize, b: usize)
    requires
        a < old(slice)@.len(),
        b < old(slice)@.len(),
    ensures
        final(slice)@ == swapped(old(slice)@, a as int, b as int),
;

/// The text that `{:?}` prints for a generator in state `r`.
pub open spec fn rng_text(r: RngState) -> Seq<char> {
    "Rng { seed: "@ + decimal_chars(r.seed as int) + ", num_rolls: "@ + decimal_chars(
        r.num_rolls as int,
    ) + ", s1: "@ + decimal_chars(r.s1 as int) + ", s2: "@ + decimal_chars(r.s2 as int) + " }"@
}

impl Rng {
    /// The generator as `{:?}` prints it, with all four fields.
    pub fn debug_text(&self) -> (s: String)
        ensures
            s@ == rng_text(self@),
    {
        let mut s = String::from_str("Rng { seed: ");
        let n = decimal(self.seed as i128);
        s.append(n.as_str());
        s.append(", num_rolls: ");
        let n = decimal(self.num_rolls as i128);
        s.append(n.as_str());
        s.append(", s1: ");
        let n = decimal(self.s1 as i128);
        s.append(n.as_str());
        s.append(", s2: ");
        let n = decimal(self.s2 as i128);
        s.append(n.as_str());
        s.append(" }");
        s
    }
}

} // verus!
