//! Factory-ball puzzle states: painted balls and planted balls, with the
//! masks that cover some of their areas.
use vstd::prelude::*;
use vstd::arithmetic::power2::pow2;
use vstd::bits::{lemma_u32_pow2_no_overflow, lemma_u32_shl_is_mul};
use vstd::laws_eq::obeys_view_eq;

verus! {

/// The mask word that covers the listed areas: the sum of their bits.
pub open spec fn mask_word(areas: Seq<u32>) -> nat
    decreases areas.len(),
{
    if areas.len() == 0 {
        0
    } else {
        mask_word(areas.drop_last()) + pow2(areas.last() as nat)
    }
}

/// Whether a list of areas can be turned into a mask word: every area has a
/// bit of a `u32`, and the sum of the bits fits in a `u32`.
pub open spec fn mask_fits(areas: Seq<u32>) -> bool {
    &&& forall|k: int| 0 <= k < areas.len() ==> #[trigger] areas[k] < 32
    &&& mask_word(areas) <= u32::MAX
}

/// The first position of `x` in `s` (meaningful when `s` contains `x`).
pub open spec fn first_pos(s: Seq<u32>, x: u32) -> int {
    choose|i: int| 0 <= i < s.len() && s[i] == x && forall|j: int| 0 <= j < i ==> s[j] != x
}

/// The equipped masks after toggling `word`, given the answer `allowed` of
/// the condition that applies: the off condition when `word` is equipped,
/// the on condition otherwise.
pub open spec fn toggled(equipped: Seq<u32>, word: u32, allowed: bool) -> Seq<u32> {
    if !allowed {
        equipped
    } else if equipped.contains(word) {
        equipped.remove(first_pos(equipped, word))
    } else {
        equipped.push(word)
    }
}

/// Whether the mask word covers area `i`.
pub open spec fn covers(word: u32, i: usize) -> bool {
    word & (1u32 << i) != 0
}

/// Whether one of the equipped masks covers area `i`.
pub open spec fn is_masked(masks: Seq<u32>, i: usize) -> bool {
    exists|k: int| 0 <= k < masks.len() && #[trigger] covers(masks[k], i)
}

proof fn lemma_mask_word_prefix(areas: Seq<u32>, k: int)
    requires
        0 <= k <= areas.len(),
    ensures
        mask_word(areas.subrange(0, k)) <= mask_word(areas),
    decreases areas.len() - k,
{
    if k < areas.len() {
        lemma_mask_word_prefix(areas, k + 1);
        assert(areas.subrange(0, k + 1).drop_last() =~= areas.subrange(0, k));
    } else {
        assert(areas.subrange(0, k) =~= areas);
    }
}

/// The first position of `x` is the index where it first occurs.
pub proof fn lemma_first_pos(s: Seq<u32>, x: u32, i: int)
    requires
        0 <= i < s.len(),
        s[i] == x,
        forall|j: int| 0 <= j < i ==> s[j] != x,
    ensures
        first_pos(s, x) == i,
{
    let f = first_pos(s, x);
    assert(0 <= f < s.len() && s[f] == x && forall|j: int| 0 <= j < f ==> s[j] != x);
    if f < i {
        assert(s[f] != x);
    } else if f > i {
        assert(s[i] != x);
    }
}

/// Toggles a mask tool and returns the new list of equipped masks.
///
/// If the mask cannot be toggled, just clones `equipped`.
///
/// Parameters:
/// - `equipped`: the list of currently equipped masks,
///   from innermost to outermost, each represented by a bitmask that
///   denotes which areas are being masked.
/// - `mask`: the mask to toggle, represented by the list of areas
///   that are being masked.
/// - `on_condition`: assuming the mask is currently not equipped,
///   the function that returns whether the mask can be equipped.
/// - `off_condition`: assuming the mask is currently equipped,
///   the function that returns whether the mask can be unequipped.
pub fn toggle_mask(
    equipped: &[u32],
    mask: &[u32],
    on_condition: impl Fn(&[u32]) -> bool,
    off_condition: impl Fn(&[u32]) -> bool,
) -> (result: Vec<u32>)
    requires
        mask_fits(mask@),
        call_requires(on_condition, (equipped,)),
        call_requires(off_condition, (equipped,)),
    ensures
        equipped@.contains(mask_word(mask@) as u32) ==> exists|b: bool|
            call_ensures(off_condition, (equipped,), b) && result@ == toggled(
                equipped@,
                mask_word(mask@) as u32,
                b,
            ),
        !equipped@.contains(mask_word(mask@) as u32) ==> exists|b: bool|
            call_ensures(on_condition, (equipped,), b) && result@ == toggled(
                equipped@,
                mask_word(mask@) as u32,
                b,
            ),
{
    let mut word: u32 = 0;
    let mut k: usize = 0;
    while k < mask.len()
        invariant
            k <= mask@.len(),
            mask_fits(mask@),
            word == mask_word(mask@.subrange(0, k as int)),
        decreases mask@.len() - k,
    {
        let x = mask[k];
        proof {
            assert(mask@.subrange(0, k + 1).drop_last() =~= mask@.subrange(0, k as int));
            lemma_mask_word_prefix(mask@, k + 1);
            lemma_u32_pow2_no_overflow(x as nat);
            lemma_u32_shl_is_mul(1u32, x);
        }
        word = word + (1u32 << x);
        k = k + 1;
    }
    proof {
        assert(mask@.subrange(0, mask@.len() as int) =~= mask@);
    }
    let mut new_ball = vstd::slice::slice_to_vec(equipped);
    let mut pos: usize = 0;
    let mut found = false;
    while pos < equipped.len()
        invariant_except_break
            pos <= equipped@.len(),
            !found,
            forall|j: int| 0 <= j < pos ==> equipped@[j] != word,
        ensures
            found ==> pos < equipped@.len() && equipped@[pos as int] == word,
            found ==> forall|j: int| 0 <= j < pos ==> equipped@[j] != word,
            !found ==> forall|j: int| 0 <= j < equipped@.len() ==> equipped@[j] != word,
        decreases equipped@.len() - pos,
    {
        if equipped[pos] == word {
            found = true;
            break;
        }
        pos = pos + 1;
    }
    if found {
        proof {
            lemma_first_pos(equipped@, word, pos as int);
        }
        let b = off_condition(equipped);
        if b {
            new_ball.remove(pos);
        }
        assert(new_ball@ == toggled(equipped@, word, b));
    } else {
        assert(!equipped@.contains(word));
        let b = on_condition(equipped);
        if b {
            new_ball.push(word);
        }
        assert(new_ball@ == toggled(equipped@, word, b));
    }
    new_ball
}

/// The colors after painting with `new_color`: an area takes the new color
/// unless that color is 0 or a mask covers the area.
pub open spec fn painted(color: Seq<u8>, masks: Seq<u32>, new_color: Seq<u8>) -> Seq<u8> {
    Seq::new(
        color.len(),
        |i: int|
            if new_color[i] == 0 || is_masked(masks, i as usize) {
                color[i]
            } else {
                new_color[i]
            },
    )
}

/// The colors turned counterclockwise: the last area's color moves to the
/// first area, every other one moves up by one.
pub open spec fn rotated(color: Seq<u8>) -> Seq<u8> {
    Seq::new(color.len(), |i: int| if i == 0 { color.last() } else { color[i - 1] })
}

/// A factory ball, divided into `N` areas.
///
/// Fields:
/// - `color`: the color of each area. 0 is reserved for uncolored.
///   if one of the paints (or brushes) are white, use 1 instead
///   (and the starting states should be all 1 as well).
/// - `masks`: the list of currently equipped masks,
///   from innermost to outermost, each represented by a bitmask that
///   denotes which areas are being masked.
///
/// If rotation is enabled, follow this indexing:
/// ```notest
///  07
/// 1  6
/// 2  5
///  34
/// ```
#[derive(Debug, Clone, Eq, Hash)]
pub struct AreaBall<const N: usize> {
    pub color: [u8; N],
    pub masks: Vec<u32>,
}

impl<const N: usize> View for AreaBall<N> {
    type V = (Seq<u8>, Seq<u32>);

    open spec fn view(&self) -> (Seq<u8>, Seq<u32>) {
        (self.color@, self.masks@)
    }
}

impl<const N: usize> PartialEq for AreaBall<N> {
    fn eq(&self, other: &Self) -> (same: bool) {
        same_bytes(vstd::array::array_as_slice(&self.color), vstd::array::array_as_slice(&other.color))
            && same_words(self.masks.as_slice(), other.masks.as_slice())
    }
}

impl<const N: usize> vstd::std_specs::cmp::PartialEqSpecImpl for AreaBall<N> {
    open spec fn obeys_eq_spec() -> bool {
        true
    }

    open spec fn eq_spec(&self, other: &Self) -> bool {
        self@ == other@
    }
}

impl<const N: usize> AreaBall<N> {
    /// Paints the ball with paint (or brush) and returns the new ball.
    /// 0 is reserved for uncolored, which means the area will not be
    /// colored regardless of masks.
    pub fn paint(&self, new_color: [u8; N]) -> (res: Self)
        requires
            self.masks@.len() > 0 ==> forall|i: int| 32 <= i < N ==> new_color@[i] == 0,
        ensures
            res.masks@ == self.masks@,
            res.color@ == painted(self.color@, self.masks@, new_color@),
    {
        let mut color = self.color;
        let mut i: usize = 0;
        while i < N
            invariant
                i <= N,
                self.masks@.len() > 0 ==> forall|a: int| 32 <= a < N ==> new_color@[a] == 0,
                color@.len() == N,
                forall|a: int|
                    0 <= a < i ==> color@[a] == painted(self.color@, self.masks@, new_color@)[a],
                forall|a: int| i <= a < N ==> color@[a] == self.color@[a],
            decreases N - i,
        {
            let new_col = new_color[i];
            if new_col != 0 && !any_covers(&self.masks, i) {
                color[i] = new_col;
            }
            i = i + 1;
        }
        assert(color@ == painted(self.color@, self.masks@, new_color@));
        AreaBall { color, masks: self.masks.clone() }
    }

    /// Toggles a mask tool and returns the new list of equipped masks.
    ///
    /// If the mask cannot be toggled, just clones `self`.
    ///
    /// Parameters:
    /// - `mask`: the mask to toggle, represented by the list of areas
    ///   that are being masked.
    /// - `on_condition`: assuming the mask is currently not equipped,
    ///   the function that returns whether the mask can be equipped.
    /// - `off_condition`: assuming the mask is currently equipped,
    ///   the function that returns whether the mask can be unequipped.
    pub fn toggle_mask(
        &self,
        mask: &[u32],
        on_condition: impl Fn(&[u32]) -> bool,
        off_condition: impl Fn(&[u32]) -> bool,
    ) -> (res: Self)
        requires
            mask_fits(mask@),
            accepts_list(on_condition, self.masks@),
            accepts_list(off_condition, self.masks@),
        ensures
            res.color@ == self.color@,
            toggled_by(self.masks@, mask@, on_condition, off_condition, res.masks@),
    {
        AreaBall {
            color: self.color,
            masks: toggle_masks_of(&self.masks, mask, on_condition, off_condition),
        }
    }

    /// Rotates a ball counterclockwise.
    ///
    /// If the ball cannot be rotated, just clones `self`.
    pub fn rotate_ccw(&self) -> (res: Self)
        requires
            self.masks@.len() == 0 ==> N > 0,
        ensures
            res.masks@ == self.masks@,
            res.color@ == if self.masks@.len() == 0 {
                rotated(self.color@)
            } else {
                self.color@
            },
    {
        let mut color = self.color;
        if self.masks.len() == 0 {
            color[0] = self.color[N - 1];
            let mut i: usize = 1;
            while i < N
                invariant
                    1 <= i <= N,
                    color@.len() == N,
                    forall|a: int| 0 <= a < i ==> color@[a] == rotated(self.color@)[a],
                decreases N - i,
            {
                color[i] = self.color[i - 1];
                i = i + 1;
            }
            assert(color@ == rotated(self.color@));
        }
        AreaBall { color, masks: self.masks.clone() }
    }
}

/// Grass after one watering: unseeded stays unseeded, seeded turns green,
/// green turns dark green, and dark green or brown turns brown.
pub open spec fn watered_grass(g: u8) -> u8 {
    if g == 0 {
        0
    } else if g == 1 {
        2
    } else if g == 2 {
        3
    } else {
        4
    }
}

/// Watering never lowers seeded grass: it grows by one stage up to brown,
/// which stays brown; unseeded ground stays unseeded.
pub proof fn lemma_watered_grass(g: u8)
    requires
        g <= 4,
    ensures
        g == 0 ==> watered_grass(g) == 0,
        g >= 1 ==> watered_grass(g) == (if g + 1 <= 4 {
            g + 1
        } else {
            4
        }),
        watered_grass(g) >= g,
        watered_grass(g) <= 4,
        watered_grass(4) == 4,
{
}

/// A seeded flower blooms one stage per watering, and a large bloom withers
/// back to unseeded ground, so four waterings leave any planted flower
/// unseeded.
pub proof fn lemma_watered_flower(f: u8)
    requires
        f <= 3,
    ensures
        1 <= f < 3 ==> watered_flower(f) == f + 1,
        f == 0 || f == 3 ==> watered_flower(f) == 0,
        f >= 1 ==> watered_flower(watered_flower(watered_flower(watered_flower(f)))) == 0,
{
}

/// A flower after one watering: seeded turns to a small bloom, a small bloom
/// to a large one, and a large bloom withers to unseeded.
pub open spec fn watered_flower(f: u8) -> u8 {
    if f == 0 {
        0
    } else if f == 1 {
        2
    } else if f == 2 {
        3
    } else {
        0
    }
}

/// A factory ball that uses plants, divided into `N` areas.
///
/// Fields:
/// - `grass`: the state of grass in each area.
///   0, 1, 2, 3, 4 denotes unseeded, seeded, green, dark green, and brown,
///   respectively.
/// - `yellow`: the state of yellow flowers in each area.
///   0, 1, 2, 3 denotes unseeded, seeded, small bloom, and large bloom,
///   respectively.
/// - `blue`: the state of blue flowers in each area, similarly.
/// - `masks`: the list of currently equipped masks,
///   from innermost to outermost, each represented by a bitmask that
///   denotes which areas are being masked.
#[derive(Debug, Clone, Eq, Hash)]
pub struct GrassBall<const N: usize> {
    pub grass: [u8; N],
    pub yellow: [u8; N],
    pub blue: [u8; N],
    pub masks: Vec<u32>,
}

impl<const N: usize> View for GrassBall<N> {
    type V = (Seq<u8>, Seq<u8>, Seq<u8>, Seq<u32>);

    open spec fn view(&self) -> (Seq<u8>, Seq<u8>, Seq<u8>, Seq<u32>) {
        (self.grass@, self.yellow@, self.blue@, self.masks@)
    }
}

impl<const N: usize> PartialEq for GrassBall<N> {
    fn eq(&self, other: &Self) -> (same: bool) {
        same_bytes(vstd::array::array_as_slice(&self.grass), vstd::array::array_as_slice(&other.grass))
            && same_bytes(
            vstd::array::array_as_slice(&self.yellow),
            vstd::array::array_as_slice(&other.yellow),
        ) && same_bytes(vstd::array::array_as_slice(&self.blue), vstd::array::array_as_slice(&other.blue))
            && same_words(self.masks.as_slice(), other.masks.as_slice())
    }
}

impl<const N: usize> vstd::std_specs::cmp::PartialEqSpecImpl for GrassBall<N> {
    open spec fn obeys_eq_spec() -> bool {
        true
    }

    open spec fn eq_spec(&self, other: &Self) -> bool {
        self@ == other@
    }
}

impl<const N: usize> GrassBall<N> {
    /// Plants seeds of given species in the unmasked areas.
    /// 0, 1, 2 correspond to grass, yellow flowers, and blue flowers,
    /// respectively.
    pub fn plant(&self, species: u8) -> (res: Self)
        requires
            self.masks@.len() > 0 ==> N <= 32,
        ensures
            res.masks@ == self.masks@,
            res.grass@ == if species == 0 {
                seeded(self.grass@, self.masks@)
            } else {
                self.grass@
            },
            res.yellow@ == if species == 1 {
                seeded(self.yellow@, self.masks@)
            } else {
                self.yellow@
            },
            res.blue@ == if species != 0 && species != 1 {
                seeded(self.blue@, self.masks@)
            } else {
                self.blue@
            },
    {
        let mut grass = self.grass;
        let mut yellow = self.yellow;
        let mut blue = self.blue;
        let mut i: usize = 0;
        while i < N
            invariant
                i <= N,
                self.masks@.len() > 0 ==> N <= 32,
                grass@.len() == N && yellow@.len() == N && blue@.len() == N,
                forall|a: int|
                    0 <= a < i ==> grass@[a] == (if species == 0 {
                        seeded(self.grass@, self.masks@)
                    } else {
                        self.grass@
                    })[a],
                forall|a: int|
                    0 <= a < i ==> yellow@[a] == (if species == 1 {
                        seeded(self.yellow@, self.masks@)
                    } else {
                        self.yellow@
                    })[a],
                forall|a: int|
                    0 <= a < i ==> blue@[a] == (if species != 0 && species != 1 {
                        seeded(self.blue@, self.masks@)
                    } else {
                        self.blue@
                    })[a],
                forall|a: int| i <= a < N ==> grass@[a] == self.grass@[a],
                forall|a: int| i <= a < N ==> yellow@[a] == self.yellow@[a],
                forall|a: int| i <= a < N ==> blue@[a] == self.blue@[a],
            decreases N - i,
        {
            if !any_covers(&self.masks, i) {
                if species == 0 {
                    grass[i] = if self.grass[i] >= 1 { self.grass[i] } else { 1 };
                } else if species == 1 {
                    yellow[i] = if self.yellow[i] >= 1 { self.yellow[i] } else { 1 };
                } else {
                    blue[i] = if self.blue[i] >= 1 { self.blue[i] } else { 1 };
                }
            }
            i = i + 1;
        }
        assert(grass@ == (if species == 0 { seeded(self.grass@, self.masks@) } else { self.grass@ }));
        assert(yellow@ == (if species == 1 { seeded(self.yellow@, self.masks@) } else { self.yellow@ }));
        assert(blue@ == (if species != 0 && species != 1 { seeded(self.blue@, self.masks@) } else { self.blue@ }));
        GrassBall { grass, yellow, blue, masks: self.masks.clone() }
    }

    /// Waters the unmasked areas.
    pub fn water(&self) -> (res: Self)
        requires
            self.masks@.len() > 0 ==> N <= 32,
            forall|i: int|
                0 <= i < N && !is_masked(self.masks@, i as usize) ==> self.grass@[i] <= 4
                    && self.yellow@[i] <= 3 && self.blue@[i] <= 3,
        ensures
            res.masks@ == self.masks@,
            res.grass@ == unmasked_map(self.grass@, self.masks@, |g: u8| watered_grass(g)),
            res.yellow@ == unmasked_map(self.yellow@, self.masks@, |f: u8| watered_flower(f)),
            res.blue@ == unmasked_map(self.blue@, self.masks@, |f: u8| watered_flower(f)),
            forall|i: int|
                0 <= i < N && is_masked(self.masks@, i as usize) ==> #[trigger] res.grass@[i]
                    == self.grass@[i] && res.yellow@[i] == self.yellow@[i] && res.blue@[i]
                    == self.blue@[i],
            forall|i: int|
                0 <= i < N && !is_masked(self.masks@, i as usize) ==> #[trigger] res.grass@[i]
                    == (if self.grass@[i] == 0 {
                    0
                } else if self.grass@[i] < 4 {
                    self.grass@[i] + 1
                } else {
                    4
                }),
            forall|i: int|
                0 <= i < N && !is_masked(self.masks@, i as usize) ==> #[trigger] res.yellow@[i]
                    == (if 1 <= self.yellow@[i] < 3 {
                    self.yellow@[i] + 1
                } else {
                    0
                }) && res.blue@[i] == (if 1 <= self.blue@[i] < 3 {
                    self.blue@[i] + 1
                } else {
                    0
                }),
    {
        let mut grass = self.grass;
        let mut yellow = self.yellow;
        let mut blue = self.blue;
        let ghost eg = unmasked_map(self.grass@, self.masks@, |g: u8| watered_grass(g));
        let ghost ey = unmasked_map(self.yellow@, self.masks@, |f: u8| watered_flower(f));
        let ghost eb = unmasked_map(self.blue@, self.masks@, |f: u8| watered_flower(f));
        let mut i: usize = 0;
        while i < N
            invariant
                i <= N,
                self.masks@.len() > 0 ==> N <= 32,
                forall|a: int|
                    0 <= a < N && !is_masked(self.masks@, a as usize) ==> self.grass@[a] <= 4
                        && self.yellow@[a] <= 3 && self.blue@[a] <= 3,
                eg == unmasked_map(self.grass@, self.masks@, |g: u8| watered_grass(g)),
                ey == unmasked_map(self.yellow@, self.masks@, |f: u8| watered_flower(f)),
                eb == unmasked_map(self.blue@, self.masks@, |f: u8| watered_flower(f)),
                grass@.len() == N && yellow@.len() == N && blue@.len() == N,
                forall|a: int| 0 <= a < i ==> grass@[a] == eg[a],
                forall|a: int| 0 <= a < i ==> yellow@[a] == ey[a],
                forall|a: int| 0 <= a < i ==> blue@[a] == eb[a],
                forall|a: int| i <= a < N ==> grass@[a] == self.grass@[a],
                forall|a: int| i <= a < N ==> yellow@[a] == self.yellow@[a],
                forall|a: int| i <= a < N ==> blue@[a] == self.blue@[a],
            decreases N - i,
        {
            if !any_covers(&self.masks, i) {
                let grass_table: [u8; 5] = [0, 2, 3, 4, 4];
                let flower_table: [u8; 4] = [0, 2, 3, 0];
                grass[i] = grass_table[self.grass[i] as usize];
                yellow[i] = flower_table[self.yellow[i] as usize];
                blue[i] = flower_table[self.blue[i] as usize];
            }
            i = i + 1;
        }
        assert(grass@ == eg);
        assert(yellow@ == ey);
        assert(blue@ == eb);
        proof {
            assert forall|a: int| 0 <= a < N && !is_masked(self.masks@, a as usize) implies grass@[a]
                == (if self.grass@[a] == 0 {
                0
            } else if self.grass@[a] < 4 {
                self.grass@[a] + 1
            } else {
                4
            }) && yellow@[a] == (if 1 <= self.yellow@[a] < 3 {
                self.yellow@[a] + 1
            } else {
                0
            }) && blue@[a] == (if 1 <= self.blue@[a] < 3 {
                self.blue@[a] + 1
            } else {
                0
            }) by {
                lemma_watered_grass(self.grass@[a]);
                lemma_watered_flower(self.yellow@[a]);
                lemma_watered_flower(self.blue@[a]);
            }
        }
        GrassBall { grass, yellow, blue, masks: self.masks.clone() }
    }

    /// Toggles a mask tool and returns the new list of equipped masks.
    ///
    /// If the mask cannot be toggled, just clones `self`.
    ///
    /// Parameters:
    /// - `mask`: the mask to toggle, represented by the list of areas
    ///   that are being masked.
    /// - `on_condition`: assuming the mask is currently not equipped,
    ///   the function that returns whether the mask can be equipped.
    /// - `off_condition`: assuming the mask is currently equipped,
    ///   the function that returns whether the mask can be unequipped.
    pub fn toggle_mask(
        &self,
        mask: &[u32],
        on_condition: impl Fn(&[u32]) -> bool,
        off_condition: impl Fn(&[u32]) -> bool,
    ) -> (res: Self)
        requires
            mask_fits(mask@),
            accepts_list(on_condition, self.masks@),
            accepts_list(off_condition, self.masks@),
        ensures
            res.grass@ == self.grass@,
            res.yellow@ == self.yellow@,
            res.blue@ == self.blue@,
            toggled_by(self.masks@, mask@, on_condition, off_condition, res.masks@),
    {
        GrassBall {
            masks: toggle_masks_of(&self.masks, mask, on_condition, off_condition),
            grass: self.grass,
            yellow: self.yellow,
            blue: self.blue,
        }
    }
}

/// Seeds every unmasked area: an unseeded area becomes seeded, any other
/// keeps its state.
pub open spec fn seeded(state: Seq<u8>, masks: Seq<u32>) -> Seq<u8> {
    Seq::new(
        state.len(),
        |i: int|
            if is_masked(masks, i as usize) || state[i] >= 1 {
                state[i]
            } else {
                1
            },
    )
}

/// Applies `f` to the state of every unmasked area.
pub open spec fn unmasked_map(state: Seq<u8>, masks: Seq<u32>, f: spec_fn(u8) -> u8) -> Seq<u8> {
    Seq::new(state.len(), |i: int| if is_masked(masks, i as usize) { state[i] } else { f(state[i]) })
}

/// Whether `condition` can be called on any list of masks with contents `masks`.
pub open spec fn accepts_list<F: Fn(&[u32]) -> bool>(condition: F, masks: Seq<u32>) -> bool {
    forall|s: &[u32]| s@ == masks ==> #[trigger] call_requires(condition, (s,))
}

/// Whether `res` is what toggling `mask` on the equipped list `masks` gives
/// for some answer that the applicable condition returns on that list.
pub open spec fn toggled_by<F: Fn(&[u32]) -> bool, G: Fn(&[u32]) -> bool>(
    masks: Seq<u32>,
    mask: Seq<u32>,
    on_condition: F,
    off_condition: G,
    res: Seq<u32>,
) -> bool {
    let word = mask_word(mask) as u32;
    exists|s: &[u32], b: bool|
        {
            &&& s@ == masks
            &&& if masks.contains(word) {
                call_ensures(off_condition, (s,), b)
            } else {
                call_ensures(on_condition, (s,), b)
            }
            &&& res == toggled(masks, word, b)
        }
}

/// Toggles `mask` on the equipped list held in a vector.
fn toggle_masks_of(
    masks: &Vec<u32>,
    mask: &[u32],
    on_condition: impl Fn(&[u32]) -> bool,
    off_condition: impl Fn(&[u32]) -> bool,
) -> (res: Vec<u32>)
    requires
        mask_fits(mask@),
        accepts_list(on_condition, masks@),
        accepts_list(off_condition, masks@),
    ensures
        toggled_by(masks@, mask@, on_condition, off_condition, res@),
{
    let s = masks.as_slice();
    assert(call_requires(on_condition, (s,)));
    assert(call_requires(off_condition, (s,)));
    let res = toggle_mask(s, mask, on_condition, off_condition);
    let ghost word = mask_word(mask@) as u32;
    proof {
        if masks@.contains(word) {
            let b = choose|b: bool|
                call_ensures(off_condition, (s,), b) && res@ == toggled(s@, word, b);
            assert(s@ == masks@ && call_ensures(off_condition, (s,), b) && res@ == toggled(masks@, word, b));
        } else {
            let b = choose|b: bool|
                call_ensures(on_condition, (s,), b) && res@ == toggled(s@, word, b);
            assert(s@ == masks@ && call_ensures(on_condition, (s,), b) && res@ == toggled(masks@, word, b));
        }
    }
    res
}

/// Whether one of `masks` covers area `i`, testing them in order.
fn any_covers(masks: &Vec<u32>, i: usize) -> (hit: bool)
    requires
        masks@.len() > 0 ==> i < 32,
    ensures
        hit == is_masked(masks@, i),
{
    let mut k: usize = 0;
    while k < masks.len()
        invariant
            k <= masks@.len(),
            masks@.len() > 0 ==> i < 32,
            forall|j: int| 0 <= j < k ==> !covers(masks@[j], i),
        decreases masks@.len() - k,
    {
        if masks[k] & (1u32 << i) != 0 {
            assert(covers(masks@[k as int], i));
            return true;
        }
        k = k + 1;
    }
    false
}

/// Toggling a mask that is not equipped, then toggling it again, with both
/// conditions allowing it, gives back the equipped list.
pub proof fn lemma_toggle_twice(equipped: Seq<u32>, word: u32)
    requires
        !equipped.contains(word),
    ensures
        toggled(toggled(equipped, word, true), word, true) == equipped,
{
    let once = equipped.push(word);
    assert(once[equipped.len() as int] == word);
    assert(once.contains(word));
    lemma_first_pos(once, word, equipped.len() as int);
    assert(once.remove(equipped.len() as int) =~= equipped);
}

/// Painting twice with the same paint is painting once.
pub proof fn lemma_paint_idempotent(color: Seq<u8>, masks: Seq<u32>, new_color: Seq<u8>)
    requires
        new_color.len() == color.len(),
    ensures
        painted(painted(color, masks, new_color), masks, new_color) == painted(
            color,
            masks,
            new_color,
        ),
{
    assert(painted(painted(color, masks, new_color), masks, new_color) =~= painted(
        color,
        masks,
        new_color,
    ));
}

/// Planting the same seeds twice is planting them once.
pub proof fn lemma_seeded_idempotent(state: Seq<u8>, masks: Seq<u32>)
    ensures
        seeded(seeded(state, masks), masks) == seeded(state, masks),
{
    assert(seeded(seeded(state, masks), masks) =~= seeded(state, masks));
}

/// The colors after `k` counterclockwise turns.
pub open spec fn rotated_times(color: Seq<u8>, k: nat) -> Seq<u8>
    decreases k,
{
    if k == 0 {
        color
    } else {
        rotated(rotated_times(color, (k - 1) as nat))
    }
}

proof fn lemma_rotated_times_index(color: Seq<u8>, k: nat)
    requires
        color.len() > 0,
        k <= color.len(),
    ensures
        rotated_times(color, k).len() == color.len(),
        forall|i: int|
            0 <= i < color.len() ==> #[trigger] rotated_times(color, k)[i] == color[(i - k
                + color.len()) % (color.len() as int)],
    decreases k,
{
    let n = color.len() as int;
    if k > 0 {
        lemma_rotated_times_index(color, (k - 1) as nat);
        let prev = rotated_times(color, (k - 1) as nat);
        assert forall|i: int| 0 <= i < n implies #[trigger] rotated_times(color, k)[i] == color[(i
            - k + n) % n] by {
            if i == 0 {
                assert(rotated_times(color, k)[0] == prev[n - 1]);
                assert((n - 1 - (k - 1) + n) % n == (0 - k + n) % n) by {
                    assert(n - 1 - (k - 1) + n == (0 - k + n) + n);
                    vstd::arithmetic::div_mod::lemma_mod_add_multiples_vanish(0 - k + n, n);
                }
            } else {
                assert(rotated_times(color, k)[i] == prev[i - 1]);
                assert(i - 1 - (k - 1) + n == i - k + n);
            }
        }
    } else {
        assert forall|i: int| 0 <= i < n implies #[trigger] rotated_times(color, k)[i] == color[(i
            - k + n) % n] by {
            vstd::arithmetic::div_mod::lemma_mod_add_multiples_vanish(i, n);
            vstd::arithmetic::div_mod::lemma_small_mod(i as nat, n as nat);
        }
    }
}

/// Turning a ball of `N` areas counterclockwise `N` times brings every
/// color back to its area.
pub proof fn lemma_full_turn(color: Seq<u8>)
    requires
        color.len() > 0,
    ensures
        rotated_times(color, color.len()) == color,
{
    let n = color.len() as int;
    lemma_rotated_times_index(color, color.len());
    assert forall|i: int| 0 <= i < n implies #[trigger] rotated_times(color, color.len())[i]
        == color[i] by {
        vstd::arithmetic::div_mod::lemma_small_mod(i as nat, n as nat);
    }
    assert(rotated_times(color, color.len()) =~= color);
}

/// Whether two byte lists are equal, item by item.
fn same_bytes(a: &[u8], b: &[u8]) -> (same: bool)
    ensures
        same == (a@ == b@),
{
    if a.len() != b.len() {
        return false;
    }
    let mut i: usize = 0;
    while i < a.len()
        invariant
            i <= a@.len(),
            a@.len() == b@.len(),
            forall|j: int| 0 <= j < i ==> a@[j] == b@[j],
        decreases a@.len() - i,
    {
        if a[i] != b[i] {
            return false;
        }
        i = i + 1;
    }
    assert(a@ =~= b@);
    true
}

/// Whether two word lists are equal, item by item.
fn same_words(a: &[u32], b: &[u32]) -> (same: bool)
    ensures
        same == (a@ == b@),
{
    if a.len() != b.len() {
        return false;
    }
    let mut i: usize = 0;
    while i < a.len()
        invariant
            i <= a@.len(),
            a@.len() == b@.len(),
            forall|j: int| 0 <= j < i ==> a@[j] == b@[j],
        decreases a@.len() - i,
    {
        if a[i] != b[i] {
            return false;
        }
        i = i + 1;
    }
    assert(a@ =~= b@);
    true
}

/// Two painted balls are `==` exactly when their colors and masks are.
pub proof fn lemma_area_ball_eq<const N: usize>()
    ensures
        obeys_view_eq::<AreaBall<N>>(),
{
    reveal(obeys_view_eq);
}

/// Two planted balls are `==` exactly when their plants and masks are.
pub proof fn lemma_grass_ball_eq<const N: usize>()
    ensures
        obeys_view_eq::<GrassBall<N>>(),
{
    reveal(obeys_view_eq);
}

} // verus!
