//! Factory-ball levels, each solved by a shortest-path search over ball states.
use vstd::prelude::*;
use vstd::arithmetic::power2::lemma2_to64;
use crate::small_games::{
    covers, is_masked, lemma_area_ball_eq, lemma_first_pos, lemma_grass_ball_eq, mask_word,
    painted, rotated, seeded, toggled, unmasked_map, watered_flower, watered_grass, AreaBall,
    GrassBall,
};
use crate::util::{
    accepts, bfs, is_goal_route, is_move, is_route, is_view_goal_route, is_view_route, leads,
    starts_view,
    callable_within,
};

verus! {

/// The moves of a list of labelled states, taken by the states' views.
pub open spec fn move_views<T: View>(ms: Seq<(&'static str, T)>) -> Seq<(&'static str, T::V)> {
    ms.map_values(|m: (&'static str, T)| (m.0, m.1@))
}

/// Whether `views` starts at `start` and takes, step by step, the moves
/// labelled by `syms` that `moves` offers.
pub open spec fn follows<V>(
    moves: spec_fn(V) -> Seq<(&'static str, V)>,
    start: V,
    syms: Seq<&'static str>,
    views: Seq<V>,
) -> bool {
    &&& views.len() == syms.len() + 1
    &&& views[0] == start
    &&& forall|i: int|
        0 <= i < syms.len() ==> #[trigger] moves(views[i]).contains((syms[i], views[i + 1]))
}

/// Whether the moves labelled by `syms` lead from `start` to `end`.
pub open spec fn solves<V>(
    moves: spec_fn(V) -> Seq<(&'static str, V)>,
    start: V,
    end: V,
    syms: Seq<&'static str>,
) -> bool {
    exists|views: Seq<V>| follows(moves, start, syms, views) && views.last() == end
}

/// Whether `syms` leads from `start` to `end` and no sequence of moves that
/// does is shorter.
pub open spec fn shortest_solution<V>(
    moves: spec_fn(V) -> Seq<(&'static str, V)>,
    start: V,
    end: V,
    syms: Seq<&'static str>,
) -> bool {
    &&& solves(moves, start, end, syms)
    &&& forall|other: Seq<&'static str>| #[trigger]
        solves(moves, start, end, other) ==> syms.len() <= other.len()
}

/// Whether every call of `neighbors` lists exactly the moves that `moves`
/// gives for the view of its argument.
pub open spec fn lists_moves<T: View, N: Fn(&T) -> Vec<(&'static str, T)>>(
    neighbors: N,
    moves: spec_fn(T::V) -> Seq<(&'static str, T::V)>,
) -> bool {
    forall|p: T, out: Vec<(&'static str, T)>| #[trigger]
        call_ensures(neighbors, (&p,), out) ==> move_views(out@) == moves(p@)
}

/// Whether every call of `is_goal` tells whether its argument has view `end`.
pub open spec fn tests_view<T: View, G: Fn(&T) -> bool>(is_goal: G, end: T::V) -> bool {
    forall|q: T, r: bool| #[trigger] call_ensures(is_goal, (&q,), r) ==> r == (q@ == end)
}

proof fn lemma_leads<T: View, N: Fn(&T) -> Vec<(&'static str, T)>>(
    neighbors: N,
    moves: spec_fn(T::V) -> Seq<(&'static str, T::V)>,
    pv: T::V,
    sym: &'static str,
    qv: T::V,
)
    requires
        lists_moves(neighbors, moves),
        moves(pv).contains((sym, qv)),
    ensures
        leads(neighbors, pv, sym, qv),
{
    assert forall|p: T, out: Vec<(&'static str, T)>|
        p@ == pv && #[trigger] call_ensures(neighbors, (&p,), out) implies exists|x: T|
        #[trigger] out@.contains((sym, x)) && x@ == qv by {
        let ms = moves(pv);
        assert(move_views(out@) == ms);
        let k = choose|k: int| 0 <= k < ms.len() && #[trigger] ms[k] == (sym, qv);
        assert(move_views(out@)[k] == (out@[k].0, out@[k].1@));
        assert(out@[k] == (sym, out@[k].1));
        assert(out@.contains((sym, out@[k].1)));
    }
}

/// A route of views to `end` is a route the search can take.
proof fn lemma_view_route<T: View, N: Fn(&T) -> Vec<(&'static str, T)>, G: Fn(&T) -> bool>(
    neighbors: N,
    is_goal: G,
    moves: spec_fn(T::V) -> Seq<(&'static str, T::V)>,
    start: T,
    end: T::V,
    syms: Seq<&'static str>,
    views: Seq<T::V>,
)
    requires
        lists_moves(neighbors, moves),
        tests_view(is_goal, end),
        start@ != end,
        follows(moves, start@, syms, views),
        views.last() == end,
    ensures
        is_view_goal_route(neighbors, is_goal, seq![start], syms, views),
{
    assert forall|i: int| 0 <= i < syms.len() implies #[trigger] leads(
        neighbors,
        views[i],
        syms[i],
        views[i + 1],
    ) by {
        assert(moves(views[i]).contains((syms[i], views[i + 1])));
        lemma_leads(neighbors, moves, views[i], syms[i], views[i + 1]);
    }
    assert(seq![start][0]@ == views[0]);
    assert(starts_view(seq![start], views[0]));
    assert(is_view_route(neighbors, seq![start], syms, views));
    if starts_view(seq![start], end) {
        let k = choose|k: int| 0 <= k < 1 && #[trigger] seq![start][k]@ == end;
        assert(seq![start][k] == start);
    }
}

/// What the search returns for a level is a shortest solution of it.
proof fn lemma_found<T: View, N: Fn(&T) -> Vec<(&'static str, T)>, G: Fn(&T) -> bool>(
    neighbors: N,
    is_goal: G,
    moves: spec_fn(T::V) -> Seq<(&'static str, T::V)>,
    start: T,
    end: T::V,
    found: Seq<&'static str>,
)
    requires
        lists_moves(neighbors, moves),
        tests_view(is_goal, end),
        start@ != end,
        exists|states: Seq<T>| is_goal_route(neighbors, is_goal, seq![start], found, states),
        forall|syms: Seq<&'static str>, views: Seq<T::V>|
            is_view_goal_route(neighbors, is_goal, seq![start], syms, views) ==> found.len()
                <= syms.len(),
    ensures
        shortest_solution(moves, start@, end, found),
{
    let states = choose|states: Seq<T>| is_goal_route(neighbors, is_goal, seq![start], found, states);
    let views = states.map_values(|x: T| x@);
    assert forall|i: int| 0 <= i < found.len() implies #[trigger] moves(views[i]).contains(
        (found[i], views[i + 1]),
    ) by {
        assert(is_move(neighbors, states[i], found[i], states[i + 1]));
        let out = choose|out: Vec<(&'static str, T)>| #[trigger]
            call_ensures(neighbors, (&states[i],), out) && out@.contains((found[i], states[i + 1]));
        let k = choose|k: int| 0 <= k < out@.len() && out@[k] == (found[i], states[i + 1]);
        assert(move_views(out@) == moves(states[i]@));
        assert(move_views(out@)[k] == (found[i], states[i + 1]@));
    }
    let k0 = choose|k: int| 0 <= k < 1 && seq![start][k] == states[0];
    assert(views[0] == start@);
    assert(accepts(is_goal, states.last()));
    assert(views.last() == end);
    assert(follows(moves, start@, found, views));
    assert forall|other: Seq<&'static str>| #[trigger]
        solves(moves, start@, end, other) implies found.len() <= other.len() by {
        let w = choose|w: Seq<T::V>| follows(moves, start@, other, w) && w.last() == end;
        lemma_view_route(neighbors, is_goal, moves, start, end, other, w);
    }
}

/// Every state of a route from `start` keeps `inv`, when `start` has it and
/// every move that `neighbors` lists keeps it.
proof fn lemma_route_keeps<T: View, N: Fn(&T) -> Vec<(&'static str, T)>>(
    neighbors: N,
    moves: spec_fn(T::V) -> Seq<(&'static str, T::V)>,
    inv: spec_fn(T::V) -> bool,
    start: T,
    syms: Seq<&'static str>,
    states: Seq<T>,
    m: int,
)
    requires
        lists_moves(neighbors, moves),
        inv(start@),
        forall|v: T::V, k: int| inv(v) && 0 <= k < moves(v).len() ==> inv(#[trigger] moves(v)[k].1),
        is_route(neighbors, seq![start], syms, states),
        0 <= m < states.len(),
    ensures
        inv(states[m]@),
    decreases m,
{
    if m == 0 {
        assert(seq![start].contains(states[0]));
        assert(states[0] == start);
    } else {
        lemma_route_keeps(neighbors, moves, inv, start, syms, states, m - 1);
        let i = m - 1;
        assert(is_move(neighbors, states[i], syms[i], states[i + 1]));
        assert(i + 1 == m);
        let out = choose|out: Vec<(&'static str, T)>| #[trigger]
            call_ensures(neighbors, (&states[m - 1],), out) && out@.contains((syms[m - 1], states[m]));
        let k = choose|k: int| 0 <= k < out@.len() && out@[k] == (syms[m - 1], states[m]);
        let ms = moves(states[m - 1]@);
        assert(move_views(out@) == ms);
        assert(move_views(out@)[k] == (syms[m - 1], states[m]@));
        assert(inv(ms[k].1));
    }
}

/// The closures of a level can be called wherever a search from `start`
/// calls them, when `neighbors` can be called on every state with `inv`.
proof fn lemma_callable<T: View, N: Fn(&T) -> Vec<(&'static str, T)>, G: Fn(&T) -> bool>(
    neighbors: N,
    is_goal: G,
    moves: spec_fn(T::V) -> Seq<(&'static str, T::V)>,
    inv: spec_fn(T::V) -> bool,
    start: T,
    n: int,
)
    requires
        lists_moves(neighbors, moves),
        inv(start@),
        forall|v: T::V, k: int| inv(v) && 0 <= k < moves(v).len() ==> inv(#[trigger] moves(v)[k].1),
        forall|p: T| inv(p@) ==> #[trigger] call_requires(neighbors, (&p,)),
        forall|p: T| #[trigger] call_requires(is_goal, (&p,)),
    ensures
        callable_within(seq![start], neighbors, is_goal, n),
{
    assert forall|syms: Seq<&'static str>, states: Seq<T>|
        #[trigger] is_route(neighbors, seq![start], syms, states) && syms.len() < n implies call_requires(
        neighbors,
        (&states.last(),),
    ) by {
        lemma_route_keeps(neighbors, moves, inv, start, syms, states, states.len() - 1);
    }
}

/// The view of a painted ball: its colors and its equipped masks.
pub type AreaView = (Seq<u8>, Seq<u32>);

/// The view of a planted ball: its grass, yellow and blue flower states and
/// its equipped masks.
pub type GrassView = (Seq<u8>, Seq<u8>, Seq<u8>, Seq<u32>);

/// Which areas each mask word of the levels covers.
proof fn lemma_level_bits()
    by (bit_vector)
    ensures
        !covers(10, 0), covers(10, 1), !covers(10, 2), covers(10, 3), covers(3, 0),
        covers(3, 1), !covers(3, 2), !covers(3, 3), !covers(56, 0), !covers(56, 1),
        !covers(56, 2), covers(56, 3), covers(56, 4), covers(56, 5), !covers(56, 6),
        !covers(56, 7), !covers(56, 8), !covers(146, 0), covers(146, 1), !covers(146, 2),
        !covers(146, 3), covers(146, 4), !covers(146, 5), !covers(146, 6), covers(146, 7),
        !covers(146, 8), covers(195, 0), covers(195, 1), !covers(195, 2), !covers(195, 3),
        !covers(195, 4), !covers(195, 5), covers(195, 6), covers(195, 7), covers(1, 0),
        !covers(1, 1),
{
}

proof fn lemma_masked_none(i: usize)
    ensures
        !is_masked(seq![], i),
{
}

proof fn lemma_masked_one(w: u32, i: usize)
    ensures
        is_masked(seq![w], i) == covers(w, i),
{
    if covers(w, i) {
        assert(covers(seq![w][0], i));
    }
}

proof fn lemma_masked_two(w1: u32, w2: u32, i: usize)
    ensures
        is_masked(seq![w1, w2], i) == (covers(w1, i) || covers(w2, i)),
{
    if covers(w1, i) {
        assert(covers(seq![w1, w2][0], i));
    }
    if covers(w2, i) {
        assert(covers(seq![w1, w2][1], i));
    }
}

/// The mask words of the levels' masks.
proof fn lemma_mask_words()
    ensures
        mask_word(seq![1u32, 3]) == 10,
        mask_word(seq![0u32, 1]) == 3,
        mask_word(seq![3u32, 4, 5]) == 56,
        mask_word(seq![1u32, 4, 7]) == 146,
        mask_word(seq![0u32, 1, 6, 7]) == 195,
        mask_word(seq![0u32]) == 1,
{
    reveal_with_fuel(mask_word, 5);
    lemma2_to64();
    assert(seq![1u32, 3].drop_last() =~= seq![1u32]);
    assert(seq![1u32].drop_last() =~= Seq::<u32>::empty());
    assert(seq![0u32, 1].drop_last() =~= seq![0u32]);
    assert(seq![0u32].drop_last() =~= Seq::<u32>::empty());
    assert(seq![3u32, 4, 5].drop_last() =~= seq![3u32, 4]);
    assert(seq![3u32, 4].drop_last() =~= seq![3u32]);
    assert(seq![3u32].drop_last() =~= Seq::<u32>::empty());
    assert(seq![1u32, 4, 7].drop_last() =~= seq![1u32, 4]);
    assert(seq![1u32, 4].drop_last() =~= seq![1u32]);
    assert(seq![0u32, 1, 6, 7].drop_last() =~= seq![0u32, 1, 6]);
    assert(seq![0u32, 1, 6].drop_last() =~= seq![0u32, 1]);
}

/// A mask condition that always allows the toggle.
fn any_time(_masks: &[u32]) -> (allowed: bool)
    ensures
        allowed,
{
    true
}

/// A mask condition: no mask is equipped.
fn no_masks(masks: &[u32]) -> (allowed: bool)
    ensures
        allowed == (masks@.len() == 0),
{
    masks.is_empty()
}

/// A mask condition: exactly one mask is equipped.
fn one_mask(masks: &[u32]) -> (allowed: bool)
    ensures
        allowed == (masks@.len() == 1),
{
    masks.len() == 1
}

/// A mask condition: the outermost mask is the horizontal belt (areas 3, 4, 5).
fn after_hbelt(masks: &[u32]) -> (allowed: bool)
    ensures
        allowed == (masks@.len() > 0 && masks@.last() == 56),
{
    masks.len() > 0 && masks[masks.len() - 1] == 8 + 16 + 32
}

/// A mask condition: the outermost mask is the vertical belt (areas 1, 4, 7).
fn after_vbelt(masks: &[u32]) -> (allowed: bool)
    ensures
        allowed == (masks@.len() > 0 && masks@.last() == 146),
{
    masks.len() > 0 && masks[masks.len() - 1] == 2 + 16 + 128
}

/// Whether every grass state is at most 4 and every flower state at most 3.
pub open spec fn plants_in_range(b: GrassView) -> bool {
    &&& forall|i: int| 0 <= i < b.0.len() ==> #[trigger] b.0[i] <= 4
    &&& forall|i: int| 0 <= i < b.1.len() ==> #[trigger] b.1[i] <= 3
    &&& forall|i: int| 0 <= i < b.2.len() ==> #[trigger] b.2[i] <= 3
    &&& b.1.len() == b.0.len() && b.2.len() == b.0.len()
}

proof fn lemma_seeded_in_range(s: Seq<u8>, m: Seq<u32>, hi: u8)
    requires
        1 <= hi,
        forall|i: int| 0 <= i < s.len() ==> #[trigger] s[i] <= hi,
    ensures
        forall|i: int| 0 <= i < s.len() ==> #[trigger] seeded(s, m)[i] <= hi,
        seeded(s, m).len() == s.len(),
{
}

proof fn lemma_watered_in_range(b: GrassView)
    requires
        plants_in_range(b),
    ensures
        plants_in_range(
            (
                unmasked_map(b.0, b.3, |g: u8| watered_grass(g)),
                unmasked_map(b.1, b.3, |f: u8| watered_flower(f)),
                unmasked_map(b.2, b.3, |f: u8| watered_flower(f)),
                b.3,
            ),
        ),
{
}

/// The moves of level 1-12.
pub open spec fn f1l12_moves(b: AreaView) -> Seq<(&'static str, AreaView)> {
    seq![
        ("pink", (painted(b.0, b.1, seq![1u8, 1, 1, 1]), b.1)),
        ("orange", (painted(b.0, b.1, seq![0u8, 0, 2, 2]), b.1)),
        ("yellow", (painted(b.0, b.1, seq![0u8, 0, 3, 3]), b.1)),
        ("spot", (b.0, toggled(b.1, 10, true))),
    ]
}

/// The states that a solution of level 1-12 passes through.
#[verifier::rlimit(100)]
#[verifier::spinoff_prover]
proof fn lemma_f1l12_route() -> (views: Seq<AreaView>)
    ensures
        follows(
            |b: AreaView| f1l12_moves(b),
            (seq![0u8, 0, 0, 0], Seq::<u32>::empty()),
            seq!["orange", "spot", "pink", "yellow", "spot"],
            views,
        ),
        views.last() == (seq![1u8, 0, 3, 2], Seq::<u32>::empty()),
{
    lemma_level_bits();
    let v0: AreaView = (seq![0u8, 0, 0, 0], Seq::<u32>::empty());
    let v1: AreaView = (seq![0u8, 0, 2, 2], Seq::<u32>::empty());
    let v2: AreaView = (seq![0u8, 0, 2, 2], seq![10u32]);
    let v3: AreaView = (seq![1u8, 0, 1, 2], seq![10u32]);
    let v4: AreaView = (seq![1u8, 0, 3, 2], seq![10u32]);
    let v5: AreaView = (seq![1u8, 0, 3, 2], Seq::<u32>::empty());
    let moves = |b: AreaView| f1l12_moves(b);
    // step 1: orange
    assert(painted(v0.0, v0.1, seq![0u8, 0, 2, 2]) =~= v1.0) by {
        lemma_masked_none(0); lemma_masked_none(1); lemma_masked_none(2); lemma_masked_none(3);
    }
    assert(moves(v0)[1] == ("orange", v1));
    // step 2: spot
    assert(v1.1.len() == 0);
    assert(!v1.1.contains(10u32)) by { assert(v1.1.len() == 0); }
    assert(toggled(v1.1, 10, true) =~= v2.1);
    assert(moves(v1)[3] == ("spot", v2));
    // step 3: pink
    assert(painted(v2.0, v2.1, seq![1u8, 1, 1, 1]) =~= v3.0) by {
        lemma_masked_one(10, 0); lemma_masked_one(10, 1); lemma_masked_one(10, 2);
        lemma_masked_one(10, 3);
    }
    assert(moves(v2)[0] == ("pink", v3));
    // step 4: yellow
    assert(painted(v3.0, v3.1, seq![0u8, 0, 3, 3]) =~= v4.0) by {
        lemma_masked_one(10, 0); lemma_masked_one(10, 1); lemma_masked_one(10, 2);
        lemma_masked_one(10, 3);
    }
    assert(moves(v3)[2] == ("yellow", v4));
    // step 5: spot
    assert(v4.1.len() == 1 && v4.1.last() == 10u32);
    assert(v4.1.contains(10u32)) by { assert(v4.1.len() == 1); assert(v4.1[0] == 10u32); }
    assert(toggled(v4.1, 10, true) =~= v5.1) by {
        assert(v4.1.len() == 1); assert(v4.1[0] == 10u32); lemma_first_pos(v4.1, 10, 0);
        assert(v4.1.remove(0) =~= v5.1);
    }
    assert(moves(v4)[3] == ("spot", v5));
    let views = seq![v0, v1, v2, v3, v4, v5];
    let syms = seq!["orange", "spot", "pink", "yellow", "spot"];
    assert forall|i: int| 0 <= i < syms.len() implies #[trigger] moves(views[i]).contains((syms[i], views[i + 1])) by {
        if i == 0 { assert(moves(views[0])[1] == (syms[0], views[1])); }
        if i == 1 { assert(moves(views[1])[3] == (syms[1], views[2])); }
        if i == 2 { assert(moves(views[2])[0] == (syms[2], views[3])); }
        if i == 3 { assert(moves(views[3])[2] == (syms[3], views[4])); }
        if i == 4 { assert(moves(views[4])[3] == (syms[4], views[5])); }
    }
    views
}

/// Returns the tools, in order, of a shortest way to finish level 1-12.
///
/// - AREA:  0 upper bg, 1 upper circle, 2 lower bg, 3 lower circle
/// - COLOR: 1 pink, 2 orange, 3 yellow
/// - MASK:  1 3 spot
#[verifier::rlimit(100)]
#[verifier::spinoff_prover]
pub fn f1l12() -> (solution: Vec<&'static str>)
    ensures
        shortest_solution(
            |b: AreaView| f1l12_moves(b),
            (seq![0u8, 0, 0, 0], Seq::<u32>::empty()),
            (seq![1u8, 0, 3, 2], Seq::<u32>::empty()),
            solution@,
        ),
{
    let start = AreaBall { color: [0; 4], masks: vec![] };
    let end = AreaBall { color: [1, 0, 3, 2], masks: vec![] };
    let neighbors = |ball: &AreaBall<4>| -> (moves: Vec<(&'static str, AreaBall<4>)>)
        ensures
            move_views(moves@) == f1l12_moves(ball@),
        {
            proof {
                lemma_mask_words();
            }
            let spot: &[u32] = &[1, 3];
            assert(spot@ =~= seq![1u32, 3]);
            let moves = vec![
                ("pink", ball.paint([1, 1, 1, 1])),
                ("orange", ball.paint([0, 0, 2, 2])),
                ("yellow", ball.paint([0, 0, 3, 3])),
                ("spot", ball.toggle_mask(spot, any_time, any_time)),
            ];
            assert(move_views(moves@)[0] == f1l12_moves(ball@)[0]);
            assert(move_views(moves@)[1] == f1l12_moves(ball@)[1]);
            assert(move_views(moves@)[2] == f1l12_moves(ball@)[2]);
            assert(move_views(moves@)[3] == f1l12_moves(ball@)[3]);
            assert(move_views(moves@) =~= f1l12_moves(ball@));
            moves
        };
    let is_goal = |ball: &AreaBall<4>| -> (r: bool)
        ensures
            r == (ball@ == end@),
        {
            let same = *ball == end;
            same
        };
    let ghost moves = |b: AreaView| f1l12_moves(b);
    let starts = [start];
    proof {
        lemma_area_ball_eq::<4>();
        assert(starts@ =~= seq![start]);
        assert(lists_moves(neighbors, moves));
        assert(tests_view(is_goal, end@));
        let views = lemma_f1l12_route();
        assert(start@.0 =~= seq![0u8, 0, 0, 0]);
        assert(start@.1 =~= Seq::<u32>::empty());
        assert(end@.0 =~= seq![1u8, 0, 3, 2]);
        assert(end@.1 =~= Seq::<u32>::empty());
        assert(follows(moves, start@, seq!["orange", "spot", "pink", "yellow", "spot"], views));
        lemma_view_route(neighbors, is_goal, moves, start, end@, seq!["orange", "spot", "pink", "yellow", "spot"], views);
        lemma_callable(neighbors, is_goal, moves, |b: AreaView| true, start, 5);
    }
    let solution = bfs(&starts, neighbors, is_goal);
    proof {
        lemma_found(neighbors, is_goal, moves, start, end@, solution@);
    }
    solution
}

/// The moves of level 2-13.
pub open spec fn f2l13_moves(b: AreaView) -> Seq<(&'static str, AreaView)> {
    seq![
        ("pink", (painted(b.0, b.1, seq![1u8, 1, 1, 1, 1, 1, 1, 1, 1]), b.1)),
        ("orange", (painted(b.0, b.1, seq![2u8, 2, 2, 2, 2, 2, 2, 2, 2]), b.1)),
        ("hbelt", (b.0, toggled(b.1, 56, !b.1.contains(56u32) || b.1.last() == 56))),
        ("vbelt", (b.0, toggled(b.1, 146, !b.1.contains(146u32) || b.1.last() == 146))),
    ]
}

/// The states that a solution of level 2-13 passes through.
#[verifier::rlimit(100)]
#[verifier::spinoff_prover]
proof fn lemma_f2l13_route() -> (views: Seq<AreaView>)
    ensures
        follows(
            |b: AreaView| f2l13_moves(b),
            (seq![0u8, 0, 0, 0, 0, 0, 0, 0, 0], Seq::<u32>::empty()),
            seq!["hbelt", "pink", "hbelt", "vbelt", "pink", "hbelt", "orange", "hbelt", "vbelt"],
            views,
        ),
        views.last() == (seq![2u8, 1, 2, 1, 0, 1, 2, 1, 2], Seq::<u32>::empty()),
{
    lemma_level_bits();
    let v0: AreaView = (seq![0u8, 0, 0, 0, 0, 0, 0, 0, 0], Seq::<u32>::empty());
    let v1: AreaView = (seq![0u8, 0, 0, 0, 0, 0, 0, 0, 0], seq![56u32]);
    let v2: AreaView = (seq![1u8, 1, 1, 0, 0, 0, 1, 1, 1], seq![56u32]);
    let v3: AreaView = (seq![1u8, 1, 1, 0, 0, 0, 1, 1, 1], Seq::<u32>::empty());
    let v4: AreaView = (seq![1u8, 1, 1, 0, 0, 0, 1, 1, 1], seq![146u32]);
    let v5: AreaView = (seq![1u8, 1, 1, 1, 0, 1, 1, 1, 1], seq![146u32]);
    let v6: AreaView = (seq![1u8, 1, 1, 1, 0, 1, 1, 1, 1], seq![146u32, 56]);
    let v7: AreaView = (seq![2u8, 1, 2, 1, 0, 1, 2, 1, 2], seq![146u32, 56]);
    let v8: AreaView = (seq![2u8, 1, 2, 1, 0, 1, 2, 1, 2], seq![146u32]);
    let v9: AreaView = (seq![2u8, 1, 2, 1, 0, 1, 2, 1, 2], Seq::<u32>::empty());
    let moves = |b: AreaView| f2l13_moves(b);
    // step 1: hbelt
    assert(v0.1.len() == 0);
    assert(!v0.1.contains(56u32)) by { assert(v0.1.len() == 0); }
    assert(toggled(v0.1, 56, true) =~= v1.1);
    assert(moves(v0)[2] == ("hbelt", v1));
    // step 2: pink
    assert(painted(v1.0, v1.1, seq![1u8, 1, 1, 1, 1, 1, 1, 1, 1]) =~= v2.0) by {
        lemma_masked_one(56, 0); lemma_masked_one(56, 1); lemma_masked_one(56, 2);
        lemma_masked_one(56, 3); lemma_masked_one(56, 4); lemma_masked_one(56, 5);
        lemma_masked_one(56, 6); lemma_masked_one(56, 7); lemma_masked_one(56, 8);
    }
    assert(moves(v1)[0] == ("pink", v2));
    // step 3: hbelt
    assert(v2.1.len() == 1 && v2.1.last() == 56u32);
    assert(v2.1.contains(56u32)) by { assert(v2.1.len() == 1); assert(v2.1[0] == 56u32); }
    assert(toggled(v2.1, 56, true) =~= v3.1) by {
        assert(v2.1.len() == 1); assert(v2.1[0] == 56u32); lemma_first_pos(v2.1, 56, 0);
        assert(v2.1.remove(0) =~= v3.1);
    }
    assert(moves(v2)[2] == ("hbelt", v3));
    // step 4: vbelt
    assert(v3.1.len() == 0);
    assert(!v3.1.contains(146u32)) by { assert(v3.1.len() == 0); }
    assert(toggled(v3.1, 146, true) =~= v4.1);
    assert(moves(v3)[3] == ("vbelt", v4));
    // step 5: pink
    assert(painted(v4.0, v4.1, seq![1u8, 1, 1, 1, 1, 1, 1, 1, 1]) =~= v5.0) by {
        lemma_masked_one(146, 0); lemma_masked_one(146, 1); lemma_masked_one(146, 2);
        lemma_masked_one(146, 3); lemma_masked_one(146, 4); lemma_masked_one(146, 5);
        lemma_masked_one(146, 6); lemma_masked_one(146, 7); lemma_masked_one(146, 8);
    }
    assert(moves(v4)[0] == ("pink", v5));
    // step 6: hbelt
    assert(v5.1.len() == 1 && v5.1.last() == 146u32);
    assert(!v5.1.contains(56u32)) by { assert(v5.1.len() == 1); assert(v5.1[0] == 146u32); }
    assert(toggled(v5.1, 56, true) =~= v6.1);
    assert(moves(v5)[2] == ("hbelt", v6));
    // step 7: orange
    assert(painted(v6.0, v6.1, seq![2u8, 2, 2, 2, 2, 2, 2, 2, 2]) =~= v7.0) by {
        lemma_masked_two(146, 56, 0); lemma_masked_two(146, 56, 1); lemma_masked_two(146, 56, 2);
        lemma_masked_two(146, 56, 3); lemma_masked_two(146, 56, 4); lemma_masked_two(146, 56, 5);
        lemma_masked_two(146, 56, 6); lemma_masked_two(146, 56, 7); lemma_masked_two(146, 56, 8);
    }
    assert(moves(v6)[1] == ("orange", v7));
    // step 8: hbelt
    assert(v7.1.len() == 2 && v7.1.last() == 56u32);
    assert(v7.1.contains(56u32)) by {
        assert(v7.1.len() == 2); assert(v7.1[0] == 146u32); assert(v7.1[1] == 56u32);
    }
    assert(toggled(v7.1, 56, true) =~= v8.1) by {
        assert(v7.1.len() == 2); assert(v7.1[0] == 146u32); assert(v7.1[1] == 56u32);
        lemma_first_pos(v7.1, 56, 1); assert(v7.1.remove(1) =~= v8.1);
    }
    assert(moves(v7)[2] == ("hbelt", v8));
    // step 9: vbelt
    assert(v8.1.len() == 1 && v8.1.last() == 146u32);
    assert(v8.1.contains(146u32)) by { assert(v8.1.len() == 1); assert(v8.1[0] == 146u32); }
    assert(toggled(v8.1, 146, true) =~= v9.1) by {
        assert(v8.1.len() == 1); assert(v8.1[0] == 146u32); lemma_first_pos(v8.1, 146, 0);
        assert(v8.1.remove(0) =~= v9.1);
    }
    assert(moves(v8)[3] == ("vbelt", v9));
    let views = seq![v0, v1, v2, v3, v4, v5, v6, v7, v8, v9];
    let syms = seq!["hbelt", "pink", "hbelt", "vbelt", "pink", "hbelt", "orange", "hbelt", "vbelt"];
    assert forall|i: int| 0 <= i < syms.len() implies #[trigger] moves(views[i]).contains((syms[i], views[i + 1])) by {
        if i == 0 { assert(moves(views[0])[2] == (syms[0], views[1])); }
        if i == 1 { assert(moves(views[1])[0] == (syms[1], views[2])); }
        if i == 2 { assert(moves(views[2])[2] == (syms[2], views[3])); }
        if i == 3 { assert(moves(views[3])[3] == (syms[3], views[4])); }
        if i == 4 { assert(moves(views[4])[0] == (syms[4], views[5])); }
        if i == 5 { assert(moves(views[5])[2] == (syms[5], views[6])); }
        if i == 6 { assert(moves(views[6])[1] == (syms[6], views[7])); }
        if i == 7 { assert(moves(views[7])[2] == (syms[7], views[8])); }
        if i == 8 { assert(moves(views[8])[3] == (syms[8], views[9])); }
    }
    views
}

/// Returns the tools, in order, of a shortest way to finish level 2-13.
///
/// - AREA:  0-8
/// - COLOR: 1 pink, 2 cyan
/// - MASK:  3 4 5 hbelt, 1 4 7 vbelt
#[verifier::rlimit(100)]
#[verifier::spinoff_prover]
pub fn f2l13() -> (solution: Vec<&'static str>)
    ensures
        shortest_solution(
            |b: AreaView| f2l13_moves(b),
            (seq![0u8, 0, 0, 0, 0, 0, 0, 0, 0], Seq::<u32>::empty()),
            (seq![2u8, 1, 2, 1, 0, 1, 2, 1, 2], Seq::<u32>::empty()),
            solution@,
        ),
{
    let start = AreaBall { color: [0; 9], masks: vec![] };
    let end = AreaBall { color: [2, 1, 2, 1, 0, 1, 2, 1, 2], masks: vec![] };
    let neighbors = |ball: &AreaBall<9>| -> (moves: Vec<(&'static str, AreaBall<9>)>)
        ensures
            move_views(moves@) == f2l13_moves(ball@),
        {
            proof {
                lemma_mask_words();
            }
            let hbelt: &[u32] = &[3, 4, 5];
            assert(hbelt@ =~= seq![3u32, 4, 5]);
            let vbelt: &[u32] = &[1, 4, 7];
            assert(vbelt@ =~= seq![1u32, 4, 7]);
            let moves = vec![
                ("pink", ball.paint([1; 9])),
                ("orange", ball.paint([2; 9])),
                ("hbelt", ball.toggle_mask(hbelt, any_time, after_hbelt)),
                ("vbelt", ball.toggle_mask(vbelt, any_time, after_vbelt)),
            ];
            assert(move_views(moves@)[0] == f2l13_moves(ball@)[0]);
            assert(move_views(moves@)[1] == f2l13_moves(ball@)[1]);
            assert(move_views(moves@)[2] == f2l13_moves(ball@)[2]);
            assert(move_views(moves@)[3] == f2l13_moves(ball@)[3]);
            assert(move_views(moves@) =~= f2l13_moves(ball@));
            moves
        };
    let is_goal = |ball: &AreaBall<9>| -> (r: bool)
        ensures
            r == (ball@ == end@),
        {
            let same = *ball == end;
            same
        };
    let ghost moves = |b: AreaView| f2l13_moves(b);
    let starts = [start];
    proof {
        lemma_area_ball_eq::<9>();
        assert(starts@ =~= seq![start]);
        assert(lists_moves(neighbors, moves));
        assert(tests_view(is_goal, end@));
        let views = lemma_f2l13_route();
        assert(start@.0 =~= seq![0u8, 0, 0, 0, 0, 0, 0, 0, 0]);
        assert(start@.1 =~= Seq::<u32>::empty());
        assert(end@.0 =~= seq![2u8, 1, 2, 1, 0, 1, 2, 1, 2]);
        assert(end@.1 =~= Seq::<u32>::empty());
        assert(follows(moves, start@, seq!["hbelt", "pink", "hbelt", "vbelt", "pink", "hbelt", "orange", "hbelt", "vbelt"], views));
        lemma_view_route(neighbors, is_goal, moves, start, end@, seq!["hbelt", "pink", "hbelt", "vbelt", "pink", "hbelt", "orange", "hbelt", "vbelt"], views);
        lemma_callable(neighbors, is_goal, moves, |b: AreaView| true, start, 9);
    }
    let solution = bfs(&starts, neighbors, is_goal);
    proof {
        lemma_found(neighbors, is_goal, moves, start, end@, solution@);
    }
    solution
}

/// The moves of level 2-18.
pub open spec fn f2l18_moves(b: AreaView) -> Seq<(&'static str, AreaView)> {
    seq![
        ("yellow", (painted(b.0, b.1, seq![1u8, 1, 1, 1]), b.1)),
        ("blue", (painted(b.0, b.1, seq![2u8, 2, 2, 2]), b.1)),
        ("green", (painted(b.0, b.1, seq![3u8, 3, 3, 3]), b.1)),
        ("red", (painted(b.0, b.1, seq![4u8, 4, 4, 4]), b.1)),
        ("headset", (b.0, toggled(b.1, 10, true))),
        (
            "cap",
            (b.0, toggled(b.1, 3, if b.1.contains(3u32) { b.1.len() == 1 } else { b.1.len() == 0 })),
        ),
    ]
}

/// The states that a solution of level 2-18 passes through.
#[verifier::rlimit(100)]
#[verifier::spinoff_prover]
proof fn lemma_f2l18_route() -> (views: Seq<AreaView>)
    ensures
        follows(
            |b: AreaView| f2l18_moves(b),
            (seq![0u8, 0, 0, 0], Seq::<u32>::empty()),
            seq!["green", "headset", "yellow", "headset", "cap", "red", "headset", "blue", "headset", "cap"],
            views,
        ),
        views.last() == (seq![1u8, 3, 2, 4], Seq::<u32>::empty()),
{
    lemma_level_bits();
    let v0: AreaView = (seq![0u8, 0, 0, 0], Seq::<u32>::empty());
    let v1: AreaView = (seq![3u8, 3, 3, 3], Seq::<u32>::empty());
    let v2: AreaView = (seq![3u8, 3, 3, 3], seq![10u32]);
    let v3: AreaView = (seq![1u8, 3, 1, 3], seq![10u32]);
    let v4: AreaView = (seq![1u8, 3, 1, 3], Seq::<u32>::empty());
    let v5: AreaView = (seq![1u8, 3, 1, 3], seq![3u32]);
    let v6: AreaView = (seq![1u8, 3, 4, 4], seq![3u32]);
    let v7: AreaView = (seq![1u8, 3, 4, 4], seq![3u32, 10]);
    let v8: AreaView = (seq![1u8, 3, 2, 4], seq![3u32, 10]);
    let v9: AreaView = (seq![1u8, 3, 2, 4], seq![3u32]);
    let v10: AreaView = (seq![1u8, 3, 2, 4], Seq::<u32>::empty());
    let moves = |b: AreaView| f2l18_moves(b);
    // step 1: green
    assert(painted(v0.0, v0.1, seq![3u8, 3, 3, 3]) =~= v1.0) by {
        lemma_masked_none(0); lemma_masked_none(1); lemma_masked_none(2); lemma_masked_none(3);
    }
    assert(moves(v0)[2] == ("green", v1));
    // step 2: headset
    assert(v1.1.len() == 0);
    assert(!v1.1.contains(10u32)) by { assert(v1.1.len() == 0); }
    assert(toggled(v1.1, 10, true) =~= v2.1);
    assert(moves(v1)[4] == ("headset", v2));
    // step 3: yellow
    assert(painted(v2.0, v2.1, seq![1u8, 1, 1, 1]) =~= v3.0) by {
        lemma_masked_one(10, 0); lemma_masked_one(10, 1); lemma_masked_one(10, 2);
        lemma_masked_one(10, 3);
    }
    assert(moves(v2)[0] == ("yellow", v3));
    // step 4: headset
    assert(v3.1.len() == 1 && v3.1.last() == 10u32);
    assert(v3.1.contains(10u32)) by { assert(v3.1.len() == 1); assert(v3.1[0] == 10u32); }
    assert(toggled(v3.1, 10, true) =~= v4.1) by {
        assert(v3.1.len() == 1); assert(v3.1[0] == 10u32); lemma_first_pos(v3.1, 10, 0);
        assert(v3.1.remove(0) =~= v4.1);
    }
    assert(moves(v3)[4] == ("headset", v4));
    // step 5: cap
    assert(v4.1.len() == 0);
    assert(!v4.1.contains(3u32)) by { assert(v4.1.len() == 0); }
    assert(toggled(v4.1, 3, true) =~= v5.1);
    assert(moves(v4)[5] == ("cap", v5));
    // step 6: red
    assert(painted(v5.0, v5.1, seq![4u8, 4, 4, 4]) =~= v6.0) by {
        lemma_masked_one(3, 0); lemma_masked_one(3, 1); lemma_masked_one(3, 2);
        lemma_masked_one(3, 3);
    }
    assert(moves(v5)[3] == ("red", v6));
    // step 7: headset
    assert(v6.1.len() == 1 && v6.1.last() == 3u32);
    assert(!v6.1.contains(10u32)) by { assert(v6.1.len() == 1); assert(v6.1[0] == 3u32); }
    assert(toggled(v6.1, 10, true) =~= v7.1);
    assert(moves(v6)[4] == ("headset", v7));
    // step 8: blue
    assert(painted(v7.0, v7.1, seq![2u8, 2, 2, 2]) =~= v8.0) by {
        lemma_masked_two(3, 10, 0); lemma_masked_two(3, 10, 1); lemma_masked_two(3, 10, 2);
        lemma_masked_two(3, 10, 3);
    }
    assert(moves(v7)[1] == ("blue", v8));
    // step 9: headset
    assert(v8.1.len() == 2 && v8.1.last() == 10u32);
    assert(v8.1.contains(10u32)) by {
        assert(v8.1.len() == 2); assert(v8.1[0] == 3u32); assert(v8.1[1] == 10u32);
    }
    assert(toggled(v8.1, 10, true) =~= v9.1) by {
        assert(v8.1.len() == 2); assert(v8.1[0] == 3u32); assert(v8.1[1] == 10u32);
        lemma_first_pos(v8.1, 10, 1); assert(v8.1.remove(1) =~= v9.1);
    }
    assert(moves(v8)[4] == ("headset", v9));
    // step 10: cap
    assert(v9.1.len() == 1 && v9.1.last() == 3u32);
    assert(v9.1.contains(3u32)) by { assert(v9.1.len() == 1); assert(v9.1[0] == 3u32); }
    assert(toggled(v9.1, 3, true) =~= v10.1) by {
        assert(v9.1.len() == 1); assert(v9.1[0] == 3u32); lemma_first_pos(v9.1, 3, 0);
        assert(v9.1.remove(0) =~= v10.1);
    }
    assert(moves(v9)[5] == ("cap", v10));
    let views = seq![v0, v1, v2, v3, v4, v5, v6, v7, v8, v9, v10];
    let syms = seq!["green", "headset", "yellow", "headset", "cap", "red", "headset", "blue", "headset", "cap"];
    assert forall|i: int| 0 <= i < syms.len() implies #[trigger] moves(views[i]).contains((syms[i], views[i + 1])) by {
        if i == 0 { assert(moves(views[0])[2] == (syms[0], views[1])); }
        if i == 1 { assert(moves(views[1])[4] == (syms[1], views[2])); }
        if i == 2 { assert(moves(views[2])[0] == (syms[2], views[3])); }
        if i == 3 { assert(moves(views[3])[4] == (syms[3], views[4])); }
        if i == 4 { assert(moves(views[4])[5] == (syms[4], views[5])); }
        if i == 5 { assert(moves(views[5])[3] == (syms[5], views[6])); }
        if i == 6 { assert(moves(views[6])[4] == (syms[6], views[7])); }
        if i == 7 { assert(moves(views[7])[1] == (syms[7], views[8])); }
        if i == 8 { assert(moves(views[8])[4] == (syms[8], views[9])); }
        if i == 9 { assert(moves(views[9])[5] == (syms[9], views[10])); }
    }
    views
}

/// Returns the tools, in order, of a shortest way to finish level 2-18.
///
/// - AREA:  0 upper bg, 1 upper ear, 2 lower bg, 3 lower ear
/// - COLOR: 1 yellow, 2 blue, 3 green, 4 red
/// - MASK:  1 3 headset, 0 1 cap
#[verifier::rlimit(100)]
#[verifier::spinoff_prover]
pub fn f2l18() -> (solution: Vec<&'static str>)
    ensures
        shortest_solution(
            |b: AreaView| f2l18_moves(b),
            (seq![0u8, 0, 0, 0], Seq::<u32>::empty()),
            (seq![1u8, 3, 2, 4], Seq::<u32>::empty()),
            solution@,
        ),
{
    let start = AreaBall { color: [0; 4], masks: vec![] };
    let end = AreaBall { color: [1, 3, 2, 4], masks: vec![] };
    let neighbors = |ball: &AreaBall<4>| -> (moves: Vec<(&'static str, AreaBall<4>)>)
        ensures
            move_views(moves@) == f2l18_moves(ball@),
        {
            proof {
                lemma_mask_words();
            }
            let headset: &[u32] = &[1, 3];
            assert(headset@ =~= seq![1u32, 3]);
            let cap: &[u32] = &[0, 1];
            assert(cap@ =~= seq![0u32, 1]);
            let moves = vec![
                ("yellow", ball.paint([1; 4])),
                ("blue", ball.paint([2; 4])),
                ("green", ball.paint([3; 4])),
                ("red", ball.paint([4; 4])),
                ("headset", ball.toggle_mask(headset, any_time, any_time)),
                ("cap", ball.toggle_mask(cap, no_masks, one_mask)),
            ];
            assert(move_views(moves@)[0] == f2l18_moves(ball@)[0]);
            assert(move_views(moves@)[1] == f2l18_moves(ball@)[1]);
            assert(move_views(moves@)[2] == f2l18_moves(ball@)[2]);
            assert(move_views(moves@)[3] == f2l18_moves(ball@)[3]);
            assert(move_views(moves@)[4] == f2l18_moves(ball@)[4]);
            assert(move_views(moves@)[5] == f2l18_moves(ball@)[5]);
            assert(move_views(moves@) =~= f2l18_moves(ball@));
            moves
        };
    let is_goal = |ball: &AreaBall<4>| -> (r: bool)
        ensures
            r == (ball@ == end@),
        {
            let same = *ball == end;
            same
        };
    let ghost moves = |b: AreaView| f2l18_moves(b);
    let starts = [start];
    proof {
        lemma_area_ball_eq::<4>();
        assert(starts@ =~= seq![start]);
        assert(lists_moves(neighbors, moves));
        assert(tests_view(is_goal, end@));
        let views = lemma_f2l18_route();
        assert(start@.0 =~= seq![0u8, 0, 0, 0]);
        assert(start@.1 =~= Seq::<u32>::empty());
        assert(end@.0 =~= seq![1u8, 3, 2, 4]);
        assert(end@.1 =~= Seq::<u32>::empty());
        assert(follows(moves, start@, seq!["green", "headset", "yellow", "headset", "cap", "red", "headset", "blue", "headset", "cap"], views));
        lemma_view_route(neighbors, is_goal, moves, start, end@, seq!["green", "headset", "yellow", "headset", "cap", "red", "headset", "blue", "headset", "cap"], views);
        lemma_callable(neighbors, is_goal, moves, |b: AreaView| true, start, 10);
    }
    let solution = bfs(&starts, neighbors, is_goal);
    proof {
        lemma_found(neighbors, is_goal, moves, start, end@, solution@);
    }
    solution
}

proof fn lemma_f2l19_moves_in_range(b: GrassView)
    requires
        plants_in_range(b),
    ensures
        forall|k: int| 0 <= k < f2l19_moves(b).len() ==> plants_in_range(#[trigger] f2l19_moves(b)[k].1),
{
    lemma_seeded_in_range(b.0, b.3, 4);
    lemma_seeded_in_range(b.1, b.3, 3);
    lemma_seeded_in_range(b.2, b.3, 3);
    lemma_watered_in_range(b);
}

/// The moves of level 2-19.
pub open spec fn f2l19_moves(b: GrassView) -> Seq<(&'static str, GrassView)> {
    seq![
        ("grass", (seeded(b.0, b.3), b.1, b.2, b.3)),
        ("yellow", (b.0, seeded(b.1, b.3), b.2, b.3)),
        (
            "water",
            (
                unmasked_map(b.0, b.3, |g: u8| watered_grass(g)),
                unmasked_map(b.1, b.3, |f: u8| watered_flower(f)),
                unmasked_map(b.2, b.3, |f: u8| watered_flower(f)),
                b.3,
            ),
        ),
        ("cap", (b.0, b.1, b.2, toggled(b.3, 1, true))),
    ]
}

/// The states that a solution of level 2-19 passes through.
#[verifier::rlimit(100)]
#[verifier::spinoff_prover]
proof fn lemma_f2l19_route() -> (views: Seq<GrassView>)
    ensures
        follows(
            |b: GrassView| f2l19_moves(b),
            (seq![0u8, 0], seq![0u8, 0], seq![0u8, 0], Seq::<u32>::empty()),
            seq!["yellow", "water", "cap", "water", "cap", "grass", "water"],
            views,
        ),
        views.last() == (seq![2u8, 2], seq![3u8, 0], seq![0u8, 0], Seq::<u32>::empty()),
{
    lemma_level_bits();
    let v0: GrassView = (seq![0u8, 0], seq![0u8, 0], seq![0u8, 0], Seq::<u32>::empty());
    let v1: GrassView = (seq![0u8, 0], seq![1u8, 1], seq![0u8, 0], Seq::<u32>::empty());
    let v2: GrassView = (seq![0u8, 0], seq![2u8, 2], seq![0u8, 0], Seq::<u32>::empty());
    let v3: GrassView = (seq![0u8, 0], seq![2u8, 2], seq![0u8, 0], seq![1u32]);
    let v4: GrassView = (seq![0u8, 0], seq![2u8, 3], seq![0u8, 0], seq![1u32]);
    let v5: GrassView = (seq![0u8, 0], seq![2u8, 3], seq![0u8, 0], Seq::<u32>::empty());
    let v6: GrassView = (seq![1u8, 1], seq![2u8, 3], seq![0u8, 0], Seq::<u32>::empty());
    let v7: GrassView = (seq![2u8, 2], seq![3u8, 0], seq![0u8, 0], Seq::<u32>::empty());
    let moves = |b: GrassView| f2l19_moves(b);
    // step 1: yellow
    assert(seeded(v0.1, v0.3) =~= v1.1) by { lemma_masked_none(0); lemma_masked_none(1); }
    assert(moves(v0)[1] == ("yellow", v1));
    // step 2: water
    assert(unmasked_map(v1.0, v1.3, |g: u8| watered_grass(g)) =~= v2.0) by {
        lemma_masked_none(0); lemma_masked_none(1);
    }
    assert(unmasked_map(v1.1, v1.3, |f: u8| watered_flower(f)) =~= v2.1) by {
        lemma_masked_none(0); lemma_masked_none(1);
    }
    assert(unmasked_map(v1.2, v1.3, |f: u8| watered_flower(f)) =~= v2.2) by {
        lemma_masked_none(0); lemma_masked_none(1);
    }
    assert(moves(v1)[2] == ("water", v2));
    // step 3: cap
    assert(v2.3.len() == 0);
    assert(!v2.3.contains(1u32)) by { assert(v2.3.len() == 0); }
    assert(toggled(v2.3, 1, true) =~= v3.3);
    assert(moves(v2)[3] == ("cap", v3));
    // step 4: water
    assert(unmasked_map(v3.0, v3.3, |g: u8| watered_grass(g)) =~= v4.0) by {
        lemma_masked_one(1, 0); lemma_masked_one(1, 1);
    }
    assert(unmasked_map(v3.1, v3.3, |f: u8| watered_flower(f)) =~= v4.1) by {
        lemma_masked_one(1, 0); lemma_masked_one(1, 1);
    }
    assert(unmasked_map(v3.2, v3.3, |f: u8| watered_flower(f)) =~= v4.2) by {
        lemma_masked_one(1, 0); lemma_masked_one(1, 1);
    }
    assert(moves(v3)[2] == ("water", v4));
    // step 5: cap
    assert(v4.3.len() == 1 && v4.3.last() == 1u32);
    assert(v4.3.contains(1u32)) by { assert(v4.3.len() == 1); assert(v4.3[0] == 1u32); }
    assert(toggled(v4.3, 1, true) =~= v5.3) by {
        assert(v4.3.len() == 1); assert(v4.3[0] == 1u32); lemma_first_pos(v4.3, 1, 0);
        assert(v4.3.remove(0) =~= v5.3);
    }
    assert(moves(v4)[3] == ("cap", v5));
    // step 6: grass
    assert(seeded(v5.0, v5.3) =~= v6.0) by { lemma_masked_none(0); lemma_masked_none(1); }
    assert(moves(v5)[0] == ("grass", v6));
    // step 7: water
    assert(unmasked_map(v6.0, v6.3, |g: u8| watered_grass(g)) =~= v7.0) by {
        lemma_masked_none(0); lemma_masked_none(1);
    }
    assert(unmasked_map(v6.1, v6.3, |f: u8| watered_flower(f)) =~= v7.1) by {
        lemma_masked_none(0); lemma_masked_none(1);
    }
    assert(unmasked_map(v6.2, v6.3, |f: u8| watered_flower(f)) =~= v7.2) by {
        lemma_masked_none(0); lemma_masked_none(1);
    }
    assert(moves(v6)[2] == ("water", v7));
    let views = seq![v0, v1, v2, v3, v4, v5, v6, v7];
    let syms = seq!["yellow", "water", "cap", "water", "cap", "grass", "water"];
    assert forall|i: int| 0 <= i < syms.len() implies #[trigger] moves(views[i]).contains((syms[i], views[i + 1])) by {
        if i == 0 { assert(moves(views[0])[1] == (syms[0], views[1])); }
        if i == 1 { assert(moves(views[1])[2] == (syms[1], views[2])); }
        if i == 2 { assert(moves(views[2])[3] == (syms[2], views[3])); }
        if i == 3 { assert(moves(views[3])[2] == (syms[3], views[4])); }
        if i == 4 { assert(moves(views[4])[3] == (syms[4], views[5])); }
        if i == 5 { assert(moves(views[5])[0] == (syms[5], views[6])); }
        if i == 6 { assert(moves(views[6])[2] == (syms[6], views[7])); }
    }
    views
}

/// Returns the tools, in order, of a shortest way to finish level 2-19.
///
/// - AREA:  0 upper, 1 lower
/// - MASK:  0 cap
#[verifier::rlimit(100)]
#[verifier::spinoff_prover]
pub fn f2l19() -> (solution: Vec<&'static str>)
    ensures
        shortest_solution(
            |b: GrassView| f2l19_moves(b),
            (seq![0u8, 0], seq![0u8, 0], seq![0u8, 0], Seq::<u32>::empty()),
            (seq![2u8, 2], seq![3u8, 0], seq![0u8, 0], Seq::<u32>::empty()),
            solution@,
        ),
{
    let start = GrassBall { grass: [0; 2], yellow: [0; 2], blue: [0; 2], masks: vec![] };
    let end = GrassBall { grass: [2, 2], yellow: [3, 0], blue: [0, 0], masks: vec![] };
    let neighbors = |ball: &GrassBall<2>| -> (moves: Vec<(&'static str, GrassBall<2>)>)
        requires
            plants_in_range(ball@),
        ensures
            move_views(moves@) == f2l19_moves(ball@),
            plants_in_range(ball@),
        {
            proof {
                lemma_mask_words();
            }
            let cap: &[u32] = &[0];
            assert(cap@ =~= seq![0u32]);
            let moves = vec![
                ("grass", ball.plant(0)),
                ("yellow", ball.plant(1)),
                ("water", ball.water()),
                ("cap", ball.toggle_mask(cap, any_time, any_time)),
            ];
            assert(move_views(moves@)[0] == f2l19_moves(ball@)[0]);
            assert(move_views(moves@)[1] == f2l19_moves(ball@)[1]);
            assert(move_views(moves@)[2] == f2l19_moves(ball@)[2]);
            assert(move_views(moves@)[3] == f2l19_moves(ball@)[3]);
            assert(move_views(moves@) =~= f2l19_moves(ball@));
            moves
        };
    let is_goal = |ball: &GrassBall<2>| -> (r: bool)
        ensures
            r == (ball@ == end@),
        {
            let same = *ball == end;
            same
        };
    let ghost moves = |b: GrassView| f2l19_moves(b);
    let starts = [start];
    proof {
        lemma_grass_ball_eq::<2>();
        assert(starts@ =~= seq![start]);
        assert(lists_moves(neighbors, moves));
        assert(tests_view(is_goal, end@));
        let views = lemma_f2l19_route();
        assert(start@.0 =~= seq![0u8, 0]);
        assert(start@.1 =~= seq![0u8, 0]);
        assert(start@.2 =~= seq![0u8, 0]);
        assert(start@.3 =~= Seq::<u32>::empty());
        assert(end@.0 =~= seq![2u8, 2]);
        assert(end@.1 =~= seq![3u8, 0]);
        assert(end@.2 =~= seq![0u8, 0]);
        assert(end@.3 =~= Seq::<u32>::empty());
        assert(follows(moves, start@, seq!["yellow", "water", "cap", "water", "cap", "grass", "water"], views));
        lemma_view_route(neighbors, is_goal, moves, start, end@, seq!["yellow", "water", "cap", "water", "cap", "grass", "water"], views);
        assert forall|v: GrassView, k: int| plants_in_range(v) && 0 <= k < f2l19_moves(v).len() implies plants_in_range(#[trigger] f2l19_moves(v)[k].1) by {
            lemma_f2l19_moves_in_range(v);
        }
        lemma_callable(neighbors, is_goal, moves, |b: GrassView| plants_in_range(b), start, 7);
    }
    let solution = bfs(&starts, neighbors, is_goal);
    proof {
        lemma_found(neighbors, is_goal, moves, start, end@, solution@);
    }
    solution
}

/// The moves of level 2-20.
pub open spec fn f2l20_moves(b: AreaView) -> Seq<(&'static str, AreaView)> {
    seq![
        ("yellow", (painted(b.0, b.1, seq![1u8, 1, 1, 1, 1, 1, 1, 1]), b.1)),
        ("black", (painted(b.0, b.1, seq![2u8, 2, 2, 2, 2, 2, 2, 2]), b.1)),
        ("rotate", (if b.1.len() == 0 { rotated(b.0) } else { b.0 }, b.1)),
        ("cap", (b.0, toggled(b.1, 195, true))),
    ]
}

/// The states that a solution of level 2-20 passes through.
#[verifier::rlimit(100)]
#[verifier::spinoff_prover]
proof fn lemma_f2l20_route() -> (views: Seq<AreaView>)
    ensures
        follows(
            |b: AreaView| f2l20_moves(b),
            (seq![0u8, 0, 0, 0, 0, 0, 0, 0], Seq::<u32>::empty()),
            seq!["black", "cap", "yellow", "cap", "rotate", "rotate", "rotate", "cap", "yellow", "cap", "rotate"],
            views,
        ),
        views.last() == (seq![1u8, 1, 2, 1, 1, 1, 1, 1], Seq::<u32>::empty()),
{
    lemma_level_bits();
    let v0: AreaView = (seq![0u8, 0, 0, 0, 0, 0, 0, 0], Seq::<u32>::empty());
    let v1: AreaView = (seq![2u8, 2, 2, 2, 2, 2, 2, 2], Seq::<u32>::empty());
    let v2: AreaView = (seq![2u8, 2, 2, 2, 2, 2, 2, 2], seq![195u32]);
    let v3: AreaView = (seq![2u8, 2, 1, 1, 1, 1, 2, 2], seq![195u32]);
    let v4: AreaView = (seq![2u8, 2, 1, 1, 1, 1, 2, 2], Seq::<u32>::empty());
    let v5: AreaView = (seq![2u8, 2, 2, 1, 1, 1, 1, 2], Seq::<u32>::empty());
    let v6: AreaView = (seq![2u8, 2, 2, 2, 1, 1, 1, 1], Seq::<u32>::empty());
    let v7: AreaView = (seq![1u8, 2, 2, 2, 2, 1, 1, 1], Seq::<u32>::empty());
    let v8: AreaView = (seq![1u8, 2, 2, 2, 2, 1, 1, 1], seq![195u32]);
    let v9: AreaView = (seq![1u8, 2, 1, 1, 1, 1, 1, 1], seq![195u32]);
    let v10: AreaView = (seq![1u8, 2, 1, 1, 1, 1, 1, 1], Seq::<u32>::empty());
    let v11: AreaView = (seq![1u8, 1, 2, 1, 1, 1, 1, 1], Seq::<u32>::empty());
    let moves = |b: AreaView| f2l20_moves(b);
    // step 1: black
    assert(painted(v0.0, v0.1, seq![2u8, 2, 2, 2, 2, 2, 2, 2]) =~= v1.0) by {
        lemma_masked_none(0); lemma_masked_none(1); lemma_masked_none(2); lemma_masked_none(3);
        lemma_masked_none(4); lemma_masked_none(5); lemma_masked_none(6); lemma_masked_none(7);
    }
    assert(moves(v0)[1] == ("black", v1));
    // step 2: cap
    assert(v1.1.len() == 0);
    assert(!v1.1.contains(195u32)) by { assert(v1.1.len() == 0); }
    assert(toggled(v1.1, 195, true) =~= v2.1);
    assert(moves(v1)[3] == ("cap", v2));
    // step 3: yellow
    assert(painted(v2.0, v2.1, seq![1u8, 1, 1, 1, 1, 1, 1, 1]) =~= v3.0) by {
        lemma_masked_one(195, 0); lemma_masked_one(195, 1); lemma_masked_one(195, 2);
        lemma_masked_one(195, 3); lemma_masked_one(195, 4); lemma_masked_one(195, 5);
        lemma_masked_one(195, 6); lemma_masked_one(195, 7);
    }
    assert(moves(v2)[0] == ("yellow", v3));
    // step 4: cap
    assert(v3.1.len() == 1 && v3.1.last() == 195u32);
    assert(v3.1.contains(195u32)) by { assert(v3.1.len() == 1); assert(v3.1[0] == 195u32); }
    assert(toggled(v3.1, 195, true) =~= v4.1) by {
        assert(v3.1.len() == 1); assert(v3.1[0] == 195u32); lemma_first_pos(v3.1, 195, 0);
        assert(v3.1.remove(0) =~= v4.1);
    }
    assert(moves(v3)[3] == ("cap", v4));
    // step 5: rotate
    assert(rotated(v4.0) =~= v5.0);
    assert(moves(v4)[2] == ("rotate", v5));
    // step 6: rotate
    assert(rotated(v5.0) =~= v6.0);
    assert(moves(v5)[2] == ("rotate", v6));
    // step 7: rotate
    assert(rotated(v6.0) =~= v7.0);
    assert(moves(v6)[2] == ("rotate", v7));
    // step 8: cap
    assert(v7.1.len() == 0);
    assert(!v7.1.contains(195u32)) by { assert(v7.1.len() == 0); }
    assert(toggled(v7.1, 195, true) =~= v8.1);
    assert(moves(v7)[3] == ("cap", v8));
    // step 9: yellow
    assert(painted(v8.0, v8.1, seq![1u8, 1, 1, 1, 1, 1, 1, 1]) =~= v9.0) by {
        lemma_masked_one(195, 0); lemma_masked_one(195, 1); lemma_masked_one(195, 2);
        lemma_masked_one(195, 3); lemma_masked_one(195, 4); lemma_masked_one(195, 5);
        lemma_masked_one(195, 6); lemma_masked_one(195, 7);
    }
    assert(moves(v8)[0] == ("yellow", v9));
    // step 10: cap
    assert(v9.1.len() == 1 && v9.1.last() == 195u32);
    assert(v9.1.contains(195u32)) by { assert(v9.1.len() == 1); assert(v9.1[0] == 195u32); }
    assert(toggled(v9.1, 195, true) =~= v10.1) by {
        assert(v9.1.len() == 1); assert(v9.1[0] == 195u32); lemma_first_pos(v9.1, 195, 0);
        assert(v9.1.remove(0) =~= v10.1);
    }
    assert(moves(v9)[3] == ("cap", v10));
    // step 11: rotate
    assert(rotated(v10.0) =~= v11.0);
    assert(moves(v10)[2] == ("rotate", v11));
    let views = seq![v0, v1, v2, v3, v4, v5, v6, v7, v8, v9, v10, v11];
    let syms = seq!["black", "cap", "yellow", "cap", "rotate", "rotate", "rotate", "cap", "yellow", "cap", "rotate"];
    assert forall|i: int| 0 <= i < syms.len() implies #[trigger] moves(views[i]).contains((syms[i], views[i + 1])) by {
        if i == 0 { assert(moves(views[0])[1] == (syms[0], views[1])); }
        if i == 1 { assert(moves(views[1])[3] == (syms[1], views[2])); }
        if i == 2 { assert(moves(views[2])[0] == (syms[2], views[3])); }
        if i == 3 { assert(moves(views[3])[3] == (syms[3], views[4])); }
        if i == 4 { assert(moves(views[4])[2] == (syms[4], views[5])); }
        if i == 5 { assert(moves(views[5])[2] == (syms[5], views[6])); }
        if i == 6 { assert(moves(views[6])[2] == (syms[6], views[7])); }
        if i == 7 { assert(moves(views[7])[3] == (syms[7], views[8])); }
        if i == 8 { assert(moves(views[8])[0] == (syms[8], views[9])); }
        if i == 9 { assert(moves(views[9])[3] == (syms[9], views[10])); }
        if i == 10 { assert(moves(views[10])[2] == (syms[10], views[11])); }
    }
    views
}

/// Returns the tools, in order, of a shortest way to finish level 2-20.
///
/// - AREA:  rotation
/// - COLOR: 1 yellow, 2 black
/// - MASK:  0 1 6 7 cap
#[verifier::rlimit(100)]
#[verifier::spinoff_prover]
pub fn f2l20() -> (solution: Vec<&'static str>)
    ensures
        shortest_solution(
            |b: AreaView| f2l20_moves(b),
            (seq![0u8, 0, 0, 0, 0, 0, 0, 0], Seq::<u32>::empty()),
            (seq![1u8, 1, 2, 1, 1, 1, 1, 1], Seq::<u32>::empty()),
            solution@,
        ),
{
    let start = AreaBall { color: [0; 8], masks: vec![] };
    let end = AreaBall { color: [1, 1, 2, 1, 1, 1, 1, 1], masks: vec![] };
    let neighbors = |ball: &AreaBall<8>| -> (moves: Vec<(&'static str, AreaBall<8>)>)
        ensures
            move_views(moves@) == f2l20_moves(ball@),
        {
            proof {
                lemma_mask_words();
            }
            let cap: &[u32] = &[0, 1, 6, 7];
            assert(cap@ =~= seq![0u32, 1, 6, 7]);
            let moves = vec![
                ("yellow", ball.paint([1; 8])),
                ("black", ball.paint([2; 8])),
                ("rotate", ball.rotate_ccw()),
                ("cap", ball.toggle_mask(cap, any_time, any_time)),
            ];
            assert(move_views(moves@)[0] == f2l20_moves(ball@)[0]);
            assert(move_views(moves@)[1] == f2l20_moves(ball@)[1]);
            assert(move_views(moves@)[2] == f2l20_moves(ball@)[2]);
            assert(move_views(moves@)[3] == f2l20_moves(ball@)[3]);
            assert(move_views(moves@) =~= f2l20_moves(ball@));
            moves
        };
    let is_goal = |ball: &AreaBall<8>| -> (r: bool)
        ensures
            r == (ball@ == end@),
        {
            let same = *ball == end;
            same
        };
    let ghost moves = |b: AreaView| f2l20_moves(b);
    let starts = [start];
    proof {
        lemma_area_ball_eq::<8>();
        assert(starts@ =~= seq![start]);
        assert(lists_moves(neighbors, moves));
        assert(tests_view(is_goal, end@));
        let views = lemma_f2l20_route();
        assert(start@.0 =~= seq![0u8, 0, 0, 0, 0, 0, 0, 0]);
        assert(start@.1 =~= Seq::<u32>::empty());
        assert(end@.0 =~= seq![1u8, 1, 2, 1, 1, 1, 1, 1]);
        assert(end@.1 =~= Seq::<u32>::empty());
        assert(follows(moves, start@, seq!["black", "cap", "yellow", "cap", "rotate", "rotate", "rotate", "cap", "yellow", "cap", "rotate"], views));
        lemma_view_route(neighbors, is_goal, moves, start, end@, seq!["black", "cap", "yellow", "cap", "rotate", "rotate", "rotate", "cap", "yellow", "cap", "rotate"], views);
        lemma_callable(neighbors, is_goal, moves, |b: AreaView| true, start, 11);
    }
    let solution = bfs(&starts, neighbors, is_goal);
    proof {
        lemma_found(neighbors, is_goal, moves, start, end@, solution@);
    }
    solution
}

/// The moves of level 2-23.
pub open spec fn f2l23_moves(b: AreaView) -> Seq<(&'static str, AreaView)> {
    seq![
        ("white", (painted(b.0, b.1, seq![0u8, 0, 1, 1]), b.1)),
        ("black", (painted(b.0, b.1, seq![2u8, 2, 2, 2]), b.1)),
        ("spot", (b.0, toggled(b.1, 10, true))),
        (
            "cap",
            (b.0, toggled(b.1, 3, if b.1.contains(3u32) { b.1.len() == 1 } else { b.1.len() == 0 })),
        ),
    ]
}

/// The states that a solution of level 2-23 passes through.
#[verifier::rlimit(100)]
#[verifier::spinoff_prover]
proof fn lemma_f2l23_route() -> (views: Seq<AreaView>)
    ensures
        follows(
            |b: AreaView| f2l23_moves(b),
            (seq![1u8, 1, 1, 1], Seq::<u32>::empty()),
            seq!["cap", "black", "cap", "spot", "black", "white", "spot"],
            views,
        ),
        views.last() == (seq![2u8, 1, 1, 2], Seq::<u32>::empty()),
{
    lemma_level_bits();
    let v0: AreaView = (seq![1u8, 1, 1, 1], Seq::<u32>::empty());
    let v1: AreaView = (seq![1u8, 1, 1, 1], seq![3u32]);
    let v2: AreaView = (seq![1u8, 1, 2, 2], seq![3u32]);
    let v3: AreaView = (seq![1u8, 1, 2, 2], Seq::<u32>::empty());
    let v4: AreaView = (seq![1u8, 1, 2, 2], seq![10u32]);
    let v5: AreaView = (seq![2u8, 1, 2, 2], seq![10u32]);
    let v6: AreaView = (seq![2u8, 1, 1, 2], seq![10u32]);
    let v7: AreaView = (seq![2u8, 1, 1, 2], Seq::<u32>::empty());
    let moves = |b: AreaView| f2l23_moves(b);
    // step 1: cap
    assert(v0.1.len() == 0);
    assert(!v0.1.contains(3u32)) by { assert(v0.1.len() == 0); }
    assert(toggled(v0.1, 3, true) =~= v1.1);
    assert(moves(v0)[3] == ("cap", v1));
    // step 2: black
    assert(painted(v1.0, v1.1, seq![2u8, 2, 2, 2]) =~= v2.0) by {
        lemma_masked_one(3, 0); lemma_masked_one(3, 1); lemma_masked_one(3, 2);
        lemma_masked_one(3, 3);
    }
    assert(moves(v1)[1] == ("black", v2));
    // step 3: cap
    assert(v2.1.len() == 1 && v2.1.last() == 3u32);
    assert(v2.1.contains(3u32)) by { assert(v2.1.len() == 1); assert(v2.1[0] == 3u32); }
    assert(toggled(v2.1, 3, true) =~= v3.1) by {
        assert(v2.1.len() == 1); assert(v2.1[0] == 3u32); lemma_first_pos(v2.1, 3, 0);
        assert(v2.1.remove(0) =~= v3.1);
    }
    assert(moves(v2)[3] == ("cap", v3));
    // step 4: spot
    assert(v3.1.len() == 0);
    assert(!v3.1.contains(10u32)) by { assert(v3.1.len() == 0); }
    assert(toggled(v3.1, 10, true) =~= v4.1);
    assert(moves(v3)[2] == ("spot", v4));
    // step 5: black
    assert(painted(v4.0, v4.1, seq![2u8, 2, 2, 2]) =~= v5.0) by {
        lemma_masked_one(10, 0); lemma_masked_one(10, 1); lemma_masked_one(10, 2);
        lemma_masked_one(10, 3);
    }
    assert(moves(v4)[1] == ("black", v5));
    // step 6: white
    assert(painted(v5.0, v5.1, seq![0u8, 0, 1, 1]) =~= v6.0) by {
        lemma_masked_one(10, 0); lemma_masked_one(10, 1); lemma_masked_one(10, 2);
        lemma_masked_one(10, 3);
    }
    assert(moves(v5)[0] == ("white", v6));
    // step 7: spot
    assert(v6.1.len() == 1 && v6.1.last() == 10u32);
    assert(v6.1.contains(10u32)) by { assert(v6.1.len() == 1); assert(v6.1[0] == 10u32); }
    assert(toggled(v6.1, 10, true) =~= v7.1) by {
        assert(v6.1.len() == 1); assert(v6.1[0] == 10u32); lemma_first_pos(v6.1, 10, 0);
        assert(v6.1.remove(0) =~= v7.1);
    }
    assert(moves(v6)[2] == ("spot", v7));
    let views = seq![v0, v1, v2, v3, v4, v5, v6, v7];
    let syms = seq!["cap", "black", "cap", "spot", "black", "white", "spot"];
    assert forall|i: int| 0 <= i < syms.len() implies #[trigger] moves(views[i]).contains((syms[i], views[i + 1])) by {
        if i == 0 { assert(moves(views[0])[3] == (syms[0], views[1])); }
        if i == 1 { assert(moves(views[1])[1] == (syms[1], views[2])); }
        if i == 2 { assert(moves(views[2])[3] == (syms[2], views[3])); }
        if i == 3 { assert(moves(views[3])[2] == (syms[3], views[4])); }
        if i == 4 { assert(moves(views[4])[1] == (syms[4], views[5])); }
        if i == 5 { assert(moves(views[5])[0] == (syms[5], views[6])); }
        if i == 6 { assert(moves(views[6])[2] == (syms[6], views[7])); }
    }
    views
}

/// Returns the tools, in order, of a shortest way to finish level 2-23.
///
/// - AREA:  0 upper bg, 1 upper circle, 2 lower bg, 3 lower circle
/// - COLOR: 1 white, 2 black
/// - MASK:  1 3 spot, 0 1 cap
#[verifier::rlimit(100)]
#[verifier::spinoff_prover]
pub fn f2l23() -> (solution: Vec<&'static str>)
    ensures
        shortest_solution(
            |b: AreaView| f2l23_moves(b),
            (seq![1u8, 1, 1, 1], Seq::<u32>::empty()),
            (seq![2u8, 1, 1, 2], Seq::<u32>::empty()),
            solution@,
        ),
{
    let start = AreaBall { color: [1; 4], masks: vec![] };
    let end = AreaBall { color: [2, 1, 1, 2], masks: vec![] };
    let neighbors = |ball: &AreaBall<4>| -> (moves: Vec<(&'static str, AreaBall<4>)>)
        ensures
            move_views(moves@) == f2l23_moves(ball@),
        {
            proof {
                lemma_mask_words();
            }
            let spot: &[u32] = &[1, 3];
            assert(spot@ =~= seq![1u32, 3]);
            let cap: &[u32] = &[0, 1];
            assert(cap@ =~= seq![0u32, 1]);
            let moves = vec![
                ("white", ball.paint([0, 0, 1, 1])),
                ("black", ball.paint([2; 4])),
                ("spot", ball.toggle_mask(spot, any_time, any_time)),
                ("cap", ball.toggle_mask(cap, no_masks, one_mask)),
            ];
            assert(move_views(moves@)[0] == f2l23_moves(ball@)[0]);
            assert(move_views(moves@)[1] == f2l23_moves(ball@)[1]);
            assert(move_views(moves@)[2] == f2l23_moves(ball@)[2]);
            assert(move_views(moves@)[3] == f2l23_moves(ball@)[3]);
            assert(move_views(moves@) =~= f2l23_moves(ball@));
            moves
        };
    let is_goal = |ball: &AreaBall<4>| -> (r: bool)
        ensures
            r == (ball@ == end@),
        {
            let same = *ball == end;
            same
        };
    let ghost moves = |b: AreaView| f2l23_moves(b);
    let starts = [start];
    proof {
        lemma_area_ball_eq::<4>();
        assert(starts@ =~= seq![start]);
        assert(lists_moves(neighbors, moves));
        assert(tests_view(is_goal, end@));
        let views = lemma_f2l23_route();
        assert(start@.0 =~= seq![1u8, 1, 1, 1]);
        assert(start@.1 =~= Seq::<u32>::empty());
        assert(end@.0 =~= seq![2u8, 1, 1, 2]);
        assert(end@.1 =~= Seq::<u32>::empty());
        assert(follows(moves, start@, seq!["cap", "black", "cap", "spot", "black", "white", "spot"], views));
        lemma_view_route(neighbors, is_goal, moves, start, end@, seq!["cap", "black", "cap", "spot", "black", "white", "spot"], views);
        lemma_callable(neighbors, is_goal, moves, |b: AreaView| true, start, 7);
    }
    let solution = bfs(&starts, neighbors, is_goal);
    proof {
        lemma_found(neighbors, is_goal, moves, start, end@, solution@);
    }
    solution
}

proof fn lemma_f2l24_moves_in_range(b: GrassView)
    requires
        plants_in_range(b),
    ensures
        forall|k: int| 0 <= k < f2l24_moves(b).len() ==> plants_in_range(#[trigger] f2l24_moves(b)[k].1),
{
    lemma_seeded_in_range(b.0, b.3, 4);
    lemma_seeded_in_range(b.1, b.3, 3);
    lemma_seeded_in_range(b.2, b.3, 3);
    lemma_watered_in_range(b);
}

/// The moves of level 2-24.
pub open spec fn f2l24_moves(b: GrassView) -> Seq<(&'static str, GrassView)> {
    seq![
        ("grass", (seeded(b.0, b.3), b.1, b.2, b.3)),
        ("yellow", (b.0, seeded(b.1, b.3), b.2, b.3)),
        ("blue", (b.0, b.1, seeded(b.2, b.3), b.3)),
        (
            "water",
            (
                unmasked_map(b.0, b.3, |g: u8| watered_grass(g)),
                unmasked_map(b.1, b.3, |f: u8| watered_flower(f)),
                unmasked_map(b.2, b.3, |f: u8| watered_flower(f)),
                b.3,
            ),
        ),
        ("cap", (b.0, b.1, b.2, toggled(b.3, 1, true))),
    ]
}

/// The states that a solution of level 2-24 passes through.
#[verifier::rlimit(100)]
#[verifier::spinoff_prover]
proof fn lemma_f2l24_route() -> (views: Seq<GrassView>)
    ensures
        follows(
            |b: GrassView| f2l24_moves(b),
            (seq![0u8, 0], seq![0u8, 0], seq![0u8, 0], Seq::<u32>::empty()),
            seq!["grass", "cap", "blue", "cap", "water", "yellow", "water"],
            views,
        ),
        views.last() == (seq![3u8, 3], seq![2u8, 2], seq![0u8, 3], Seq::<u32>::empty()),
{
    lemma_level_bits();
    let v0: GrassView = (seq![0u8, 0], seq![0u8, 0], seq![0u8, 0], Seq::<u32>::empty());
    let v1: GrassView = (seq![1u8, 1], seq![0u8, 0], seq![0u8, 0], Seq::<u32>::empty());
    let v2: GrassView = (seq![1u8, 1], seq![0u8, 0], seq![0u8, 0], seq![1u32]);
    let v3: GrassView = (seq![1u8, 1], seq![0u8, 0], seq![0u8, 1], seq![1u32]);
    let v4: GrassView = (seq![1u8, 1], seq![0u8, 0], seq![0u8, 1], Seq::<u32>::empty());
    let v5: GrassView = (seq![2u8, 2], seq![0u8, 0], seq![0u8, 2], Seq::<u32>::empty());
    let v6: GrassView = (seq![2u8, 2], seq![1u8, 1], seq![0u8, 2], Seq::<u32>::empty());
    let v7: GrassView = (seq![3u8, 3], seq![2u8, 2], seq![0u8, 3], Seq::<u32>::empty());
    let moves = |b: GrassView| f2l24_moves(b);
    // step 1: grass
    assert(seeded(v0.0, v0.3) =~= v1.0) by { lemma_masked_none(0); lemma_masked_none(1); }
    assert(moves(v0)[0] == ("grass", v1));
    // step 2: cap
    assert(v1.3.len() == 0);
    assert(!v1.3.contains(1u32)) by { assert(v1.3.len() == 0); }
    assert(toggled(v1.3, 1, true) =~= v2.3);
    assert(moves(v1)[4] == ("cap", v2));
    // step 3: blue
    assert(seeded(v2.2, v2.3) =~= v3.2) by { lemma_masked_one(1, 0); lemma_masked_one(1, 1); }
    assert(moves(v2)[2] == ("blue", v3));
    // step 4: cap
    assert(v3.3.len() == 1 && v3.3.last() == 1u32);
    assert(v3.3.contains(1u32)) by { assert(v3.3.len() == 1); assert(v3.3[0] == 1u32); }
    assert(toggled(v3.3, 1, true) =~= v4.3) by {
        assert(v3.3.len() == 1); assert(v3.3[0] == 1u32); lemma_first_pos(v3.3, 1, 0);
        assert(v3.3.remove(0) =~= v4.3);
    }
    assert(moves(v3)[4] == ("cap", v4));
    // step 5: water
    assert(unmasked_map(v4.0, v4.3, |g: u8| watered_grass(g)) =~= v5.0) by {
        lemma_masked_none(0); lemma_masked_none(1);
    }
    assert(unmasked_map(v4.1, v4.3, |f: u8| watered_flower(f)) =~= v5.1) by {
        lemma_masked_none(0); lemma_masked_none(1);
    }
    assert(unmasked_map(v4.2, v4.3, |f: u8| watered_flower(f)) =~= v5.2) by {
        lemma_masked_none(0); lemma_masked_none(1);
    }
    assert(moves(v4)[3] == ("water", v5));
    // step 6: yellow
    assert(seeded(v5.1, v5.3) =~= v6.1) by { lemma_masked_none(0); lemma_masked_none(1); }
    assert(moves(v5)[1] == ("yellow", v6));
    // step 7: water
    assert(unmasked_map(v6.0, v6.3, |g: u8| watered_grass(g)) =~= v7.0) by {
        lemma_masked_none(0); lemma_masked_none(1);
    }
    assert(unmasked_map(v6.1, v6.3, |f: u8| watered_flower(f)) =~= v7.1) by {
        lemma_masked_none(0); lemma_masked_none(1);
    }
    assert(unmasked_map(v6.2, v6.3, |f: u8| watered_flower(f)) =~= v7.2) by {
        lemma_masked_none(0); lemma_masked_none(1);
    }
    assert(moves(v6)[3] == ("water", v7));
    let views = seq![v0, v1, v2, v3, v4, v5, v6, v7];
    let syms = seq!["grass", "cap", "blue", "cap", "water", "yellow", "water"];
    assert forall|i: int| 0 <= i < syms.len() implies #[trigger] moves(views[i]).contains((syms[i], views[i + 1])) by {
        if i == 0 { assert(moves(views[0])[0] == (syms[0], views[1])); }
        if i == 1 { assert(moves(views[1])[4] == (syms[1], views[2])); }
        if i == 2 { assert(moves(views[2])[2] == (syms[2], views[3])); }
        if i == 3 { assert(moves(views[3])[4] == (syms[3], views[4])); }
        if i == 4 { assert(moves(views[4])[3] == (syms[4], views[5])); }
        if i == 5 { assert(moves(views[5])[1] == (syms[5], views[6])); }
        if i == 6 { assert(moves(views[6])[3] == (syms[6], views[7])); }
    }
    views
}

/// Returns the tools, in order, of a shortest way to finish level 2-24.
///
/// - AREA:  0 upper, 1 lower
/// - MASK:  0 cap
#[verifier::rlimit(100)]
#[verifier::spinoff_prover]
pub fn f2l24() -> (solution: Vec<&'static str>)
    ensures
        shortest_solution(
            |b: GrassView| f2l24_moves(b),
            (seq![0u8, 0], seq![0u8, 0], seq![0u8, 0], Seq::<u32>::empty()),
            (seq![3u8, 3], seq![2u8, 2], seq![0u8, 3], Seq::<u32>::empty()),
            solution@,
        ),
{
    let start = GrassBall { grass: [0; 2], yellow: [0; 2], blue: [0; 2], masks: vec![] };
    let end = GrassBall { grass: [3, 3], yellow: [2, 2], blue: [0, 3], masks: vec![] };
    let neighbors = |ball: &GrassBall<2>| -> (moves: Vec<(&'static str, GrassBall<2>)>)
        requires
            plants_in_range(ball@),
        ensures
            move_views(moves@) == f2l24_moves(ball@),
            plants_in_range(ball@),
        {
            proof {
                lemma_mask_words();
            }
            let cap: &[u32] = &[0];
            assert(cap@ =~= seq![0u32]);
            let moves = vec![
                ("grass", ball.plant(0)),
                ("yellow", ball.plant(1)),
                ("blue", ball.plant(2)),
                ("water", ball.water()),
                ("cap", ball.toggle_mask(cap, any_time, any_time)),
            ];
            assert(move_views(moves@)[0] == f2l24_moves(ball@)[0]);
            assert(move_views(moves@)[1] == f2l24_moves(ball@)[1]);
            assert(move_views(moves@)[2] == f2l24_moves(ball@)[2]);
            assert(move_views(moves@)[3] == f2l24_moves(ball@)[3]);
            assert(move_views(moves@)[4] == f2l24_moves(ball@)[4]);
            assert(move_views(moves@) =~= f2l24_moves(ball@));
            moves
        };
    let is_goal = |ball: &GrassBall<2>| -> (r: bool)
        ensures
            r == (ball@ == end@),
        {
            let same = *ball == end;
            same
        };
    let ghost moves = |b: GrassView| f2l24_moves(b);
    let starts = [start];
    proof {
        lemma_grass_ball_eq::<2>();
        assert(starts@ =~= seq![start]);
        assert(lists_moves(neighbors, moves));
        assert(tests_view(is_goal, end@));
        let views = lemma_f2l24_route();
        assert(start@.0 =~= seq![0u8, 0]);
        assert(start@.1 =~= seq![0u8, 0]);
        assert(start@.2 =~= seq![0u8, 0]);
        assert(start@.3 =~= Seq::<u32>::empty());
        assert(end@.0 =~= seq![3u8, 3]);
        assert(end@.1 =~= seq![2u8, 2]);
        assert(end@.2 =~= seq![0u8, 3]);
        assert(end@.3 =~= Seq::<u32>::empty());
        assert(follows(moves, start@, seq!["grass", "cap", "blue", "cap", "water", "yellow", "water"], views));
        lemma_view_route(neighbors, is_goal, moves, start, end@, seq!["grass", "cap", "blue", "cap", "water", "yellow", "water"], views);
        assert forall|v: GrassView, k: int| plants_in_range(v) && 0 <= k < f2l24_moves(v).len() implies plants_in_range(#[trigger] f2l24_moves(v)[k].1) by {
            lemma_f2l24_moves_in_range(v);
        }
        lemma_callable(neighbors, is_goal, moves, |b: GrassView| plants_in_range(b), start, 7);
    }
    let solution = bfs(&starts, neighbors, is_goal);
    proof {
        lemma_found(neighbors, is_goal, moves, start, end@, solution@);
    }
    solution
}

/// The moves of level 2-25.
pub open spec fn f2l25_moves(b: AreaView) -> Seq<(&'static str, AreaView)> {
    seq![
        ("orange", (painted(b.0, b.1, seq![1u8, 1, 1, 1, 1, 1, 1, 1]), b.1)),
        ("green", (painted(b.0, b.1, seq![2u8, 2, 2, 2, 2, 2, 2, 2]), b.1)),
        ("yellow", (painted(b.0, b.1, seq![3u8, 3, 3, 3, 3, 3, 3, 3]), b.1)),
        ("rotate", (if b.1.len() == 0 { rotated(b.0) } else { b.0 }, b.1)),
        ("cap", (b.0, toggled(b.1, 195, true))),
    ]
}

/// The states that a solution of level 2-25 passes through.
#[verifier::rlimit(100)]
#[verifier::spinoff_prover]
proof fn lemma_f2l25_route() -> (views: Seq<AreaView>)
    ensures
        follows(
            |b: AreaView| f2l25_moves(b),
            (seq![0u8, 0, 0, 0, 0, 0, 0, 0], Seq::<u32>::empty()),
            seq!["orange", "cap", "green", "cap", "rotate", "cap", "yellow", "cap", "rotate", "cap", "orange", "cap", "rotate"],
            views,
        ),
        views.last() == (seq![2u8, 1, 1, 1, 1, 1, 1, 3], Seq::<u32>::empty()),
{
    lemma_level_bits();
    let v0: AreaView = (seq![0u8, 0, 0, 0, 0, 0, 0, 0], Seq::<u32>::empty());
    let v1: AreaView = (seq![1u8, 1, 1, 1, 1, 1, 1, 1], Seq::<u32>::empty());
    let v2: AreaView = (seq![1u8, 1, 1, 1, 1, 1, 1, 1], seq![195u32]);
    let v3: AreaView = (seq![1u8, 1, 2, 2, 2, 2, 1, 1], seq![195u32]);
    let v4: AreaView = (seq![1u8, 1, 2, 2, 2, 2, 1, 1], Seq::<u32>::empty());
    let v5: AreaView = (seq![1u8, 1, 1, 2, 2, 2, 2, 1], Seq::<u32>::empty());
    let v6: AreaView = (seq![1u8, 1, 1, 2, 2, 2, 2, 1], seq![195u32]);
    let v7: AreaView = (seq![1u8, 1, 3, 3, 3, 3, 2, 1], seq![195u32]);
    let v8: AreaView = (seq![1u8, 1, 3, 3, 3, 3, 2, 1], Seq::<u32>::empty());
    let v9: AreaView = (seq![1u8, 1, 1, 3, 3, 3, 3, 2], Seq::<u32>::empty());
    let v10: AreaView = (seq![1u8, 1, 1, 3, 3, 3, 3, 2], seq![195u32]);
    let v11: AreaView = (seq![1u8, 1, 1, 1, 1, 1, 3, 2], seq![195u32]);
    let v12: AreaView = (seq![1u8, 1, 1, 1, 1, 1, 3, 2], Seq::<u32>::empty());
    let v13: AreaView = (seq![2u8, 1, 1, 1, 1, 1, 1, 3], Seq::<u32>::empty());
    let moves = |b: AreaView| f2l25_moves(b);
    // step 1: orange
    assert(painted(v0.0, v0.1, seq![1u8, 1, 1, 1, 1, 1, 1, 1]) =~= v1.0) by {
        lemma_masked_none(0); lemma_masked_none(1); lemma_masked_none(2); lemma_masked_none(3);
        lemma_masked_none(4); lemma_masked_none(5); lemma_masked_none(6); lemma_masked_none(7);
    }
    assert(moves(v0)[0] == ("orange", v1));
    // step 2: cap
    assert(v1.1.len() == 0);
    assert(!v1.1.contains(195u32)) by { assert(v1.1.len() == 0); }
    assert(toggled(v1.1, 195, true) =~= v2.1);
    assert(moves(v1)[4] == ("cap", v2));
    // step 3: green
    assert(painted(v2.0, v2.1, seq![2u8, 2, 2, 2, 2, 2, 2, 2]) =~= v3.0) by {
        lemma_masked_one(195, 0); lemma_masked_one(195, 1); lemma_masked_one(195, 2);
        lemma_masked_one(195, 3); lemma_masked_one(195, 4); lemma_masked_one(195, 5);
        lemma_masked_one(195, 6); lemma_masked_one(195, 7);
    }
    assert(moves(v2)[1] == ("green", v3));
    // step 4: cap
    assert(v3.1.len() == 1 && v3.1.last() == 195u32);
    assert(v3.1.contains(195u32)) by { assert(v3.1.len() == 1); assert(v3.1[0] == 195u32); }
    assert(toggled(v3.1, 195, true) =~= v4.1) by {
        assert(v3.1.len() == 1); assert(v3.1[0] == 195u32); lemma_first_pos(v3.1, 195, 0);
        assert(v3.1.remove(0) =~= v4.1);
    }
    assert(moves(v3)[4] == ("cap", v4));
    // step 5: rotate
    assert(rotated(v4.0) =~= v5.0);
    assert(moves(v4)[3] == ("rotate", v5));
    // step 6: cap
    assert(v5.1.len() == 0);
    assert(!v5.1.contains(195u32)) by { assert(v5.1.len() == 0); }
    assert(toggled(v5.1, 195, true) =~= v6.1);
    assert(moves(v5)[4] == ("cap", v6));
    // step 7: yellow
    assert(painted(v6.0, v6.1, seq![3u8, 3, 3, 3, 3, 3, 3, 3]) =~= v7.0) by {
        lemma_masked_one(195, 0); lemma_masked_one(195, 1); lemma_masked_one(195, 2);
        lemma_masked_one(195, 3); lemma_masked_one(195, 4); lemma_masked_one(195, 5);
        lemma_masked_one(195, 6); lemma_masked_one(195, 7);
    }
    assert(moves(v6)[2] == ("yellow", v7));
    // step 8: cap
    assert(v7.1.len() == 1 && v7.1.last() == 195u32);
    assert(v7.1.contains(195u32)) by { assert(v7.1.len() == 1); assert(v7.1[0] == 195u32); }
    assert(toggled(v7.1, 195, true) =~= v8.1) by {
        assert(v7.1.len() == 1); assert(v7.1[0] == 195u32); lemma_first_pos(v7.1, 195, 0);
        assert(v7.1.remove(0) =~= v8.1);
    }
    assert(moves(v7)[4] == ("cap", v8));
    // step 9: rotate
    assert(rotated(v8.0) =~= v9.0);
    assert(moves(v8)[3] == ("rotate", v9));
    // step 10: cap
    assert(v9.1.len() == 0);
    assert(!v9.1.contains(195u32)) by { assert(v9.1.len() == 0); }
    assert(toggled(v9.1, 195, true) =~= v10.1);
    assert(moves(v9)[4] == ("cap", v10));
    // step 11: orange
    assert(painted(v10.0, v10.1, seq![1u8, 1, 1, 1, 1, 1, 1, 1]) =~= v11.0) by {
        lemma_masked_one(195, 0); lemma_masked_one(195, 1); lemma_masked_one(195, 2);
        lemma_masked_one(195, 3); lemma_masked_one(195, 4); lemma_masked_one(195, 5);
        lemma_masked_one(195, 6); lemma_masked_one(195, 7);
    }
    assert(moves(v10)[0] == ("orange", v11));
    // step 12: cap
    assert(v11.1.len() == 1 && v11.1.last() == 195u32);
    assert(v11.1.contains(195u32)) by { assert(v11.1.len() == 1); assert(v11.1[0] == 195u32); }
    assert(toggled(v11.1, 195, true) =~= v12.1) by {
        assert(v11.1.len() == 1); assert(v11.1[0] == 195u32); lemma_first_pos(v11.1, 195, 0);
        assert(v11.1.remove(0) =~= v12.1);
    }
    assert(moves(v11)[4] == ("cap", v12));
    // step 13: rotate
    assert(rotated(v12.0) =~= v13.0);
    assert(moves(v12)[3] == ("rotate", v13));
    let views = seq![v0, v1, v2, v3, v4, v5, v6, v7, v8, v9, v10, v11, v12, v13];
    let syms = seq!["orange", "cap", "green", "cap", "rotate", "cap", "yellow", "cap", "rotate", "cap", "orange", "cap", "rotate"];
    assert forall|i: int| 0 <= i < syms.len() implies #[trigger] moves(views[i]).contains((syms[i], views[i + 1])) by {
        if i == 0 { assert(moves(views[0])[0] == (syms[0], views[1])); }
        if i == 1 { assert(moves(views[1])[4] == (syms[1], views[2])); }
        if i == 2 { assert(moves(views[2])[1] == (syms[2], views[3])); }
        if i == 3 { assert(moves(views[3])[4] == (syms[3], views[4])); }
        if i == 4 { assert(moves(views[4])[3] == (syms[4], views[5])); }
        if i == 5 { assert(moves(views[5])[4] == (syms[5], views[6])); }
        if i == 6 { assert(moves(views[6])[2] == (syms[6], views[7])); }
        if i == 7 { assert(moves(views[7])[4] == (syms[7], views[8])); }
        if i == 8 { assert(moves(views[8])[3] == (syms[8], views[9])); }
        if i == 9 { assert(moves(views[9])[4] == (syms[9], views[10])); }
        if i == 10 { assert(moves(views[10])[0] == (syms[10], views[11])); }
        if i == 11 { assert(moves(views[11])[4] == (syms[11], views[12])); }
        if i == 12 { assert(moves(views[12])[3] == (syms[12], views[13])); }
    }
    views
}

/// Returns the tools, in order, of a shortest way to finish level 2-25.
///
/// - AREA:  rotation
/// - COLOR: 1 orange, 2 green, 3 yellow
/// - MASK:  0 1 6 7 cap
#[verifier::rlimit(100)]
#[verifier::spinoff_prover]
pub fn f2l25() -> (solution: Vec<&'static str>)
    ensures
        shortest_solution(
            |b: AreaView| f2l25_moves(b),
            (seq![0u8, 0, 0, 0, 0, 0, 0, 0], Seq::<u32>::empty()),
            (seq![2u8, 1, 1, 1, 1, 1, 1, 3], Seq::<u32>::empty()),
            solution@,
        ),
{
    let start = AreaBall { color: [0; 8], masks: vec![] };
    let end = AreaBall { color: [2, 1, 1, 1, 1, 1, 1, 3], masks: vec![] };
    let neighbors = |ball: &AreaBall<8>| -> (moves: Vec<(&'static str, AreaBall<8>)>)
        ensures
            move_views(moves@) == f2l25_moves(ball@),
        {
            proof {
                lemma_mask_words();
            }
            let cap: &[u32] = &[0, 1, 6, 7];
            assert(cap@ =~= seq![0u32, 1, 6, 7]);
            let moves = vec![
                ("orange", ball.paint([1; 8])),
                ("green", ball.paint([2; 8])),
                ("yellow", ball.paint([3; 8])),
                ("rotate", ball.rotate_ccw()),
                ("cap", ball.toggle_mask(cap, any_time, any_time)),
            ];
            assert(move_views(moves@)[0] == f2l25_moves(ball@)[0]);
            assert(move_views(moves@)[1] == f2l25_moves(ball@)[1]);
            assert(move_views(moves@)[2] == f2l25_moves(ball@)[2]);
            assert(move_views(moves@)[3] == f2l25_moves(ball@)[3]);
            assert(move_views(moves@)[4] == f2l25_moves(ball@)[4]);
            assert(move_views(moves@) =~= f2l25_moves(ball@));
            moves
        };
    let is_goal = |ball: &AreaBall<8>| -> (r: bool)
        ensures
            r == (ball@ == end@),
        {
            let same = *ball == end;
            same
        };
    let ghost moves = |b: AreaView| f2l25_moves(b);
    let starts = [start];
    proof {
        lemma_area_ball_eq::<8>();
        assert(starts@ =~= seq![start]);
        assert(lists_moves(neighbors, moves));
        assert(tests_view(is_goal, end@));
        let views = lemma_f2l25_route();
        assert(start@.0 =~= seq![0u8, 0, 0, 0, 0, 0, 0, 0]);
        assert(start@.1 =~= Seq::<u32>::empty());
        assert(end@.0 =~= seq![2u8, 1, 1, 1, 1, 1, 1, 3]);
        assert(end@.1 =~= Seq::<u32>::empty());
        assert(follows(moves, start@, seq!["orange", "cap", "green", "cap", "rotate", "cap", "yellow", "cap", "rotate", "cap", "orange", "cap", "rotate"], views));
        lemma_view_route(neighbors, is_goal, moves, start, end@, seq!["orange", "cap", "green", "cap", "rotate", "cap", "yellow", "cap", "rotate", "cap", "orange", "cap", "rotate"], views);
        lemma_callable(neighbors, is_goal, moves, |b: AreaView| true, start, 13);
    }
    let solution = bfs(&starts, neighbors, is_goal);
    proof {
        lemma_found(neighbors, is_goal, moves, start, end@, solution@);
    }
    solution
}

proof fn lemma_f2l28_moves_in_range(b: GrassView)
    requires
        plants_in_range(b),
    ensures
        forall|k: int| 0 <= k < f2l28_moves(b).len() ==> plants_in_range(#[trigger] f2l28_moves(b)[k].1),
{
    lemma_seeded_in_range(b.0, b.3, 4);
    lemma_seeded_in_range(b.1, b.3, 3);
    lemma_seeded_in_range(b.2, b.3, 3);
    lemma_watered_in_range(b);
}

/// The moves of level 2-28.
pub open spec fn f2l28_moves(b: GrassView) -> Seq<(&'static str, GrassView)> {
    seq![
        ("grass", (seeded(b.0, b.3), b.1, b.2, b.3)),
        (
            "water",
            (
                unmasked_map(b.0, b.3, |g: u8| watered_grass(g)),
                unmasked_map(b.1, b.3, |f: u8| watered_flower(f)),
                unmasked_map(b.2, b.3, |f: u8| watered_flower(f)),
                b.3,
            ),
        ),
        ("hbelt", (b.0, b.1, b.2, toggled(b.3, 56, !b.3.contains(56u32) || b.3.last() == 56))),
        (
            "vbelt",
            (b.0, b.1, b.2, toggled(b.3, 146, !b.3.contains(146u32) || b.3.last() == 146)),
        ),
    ]
}

/// The states that a solution of level 2-28 passes through.
#[verifier::rlimit(100)]
#[verifier::spinoff_prover]
proof fn lemma_f2l28_route() -> (views: Seq<GrassView>)
    ensures
        follows(
            |b: GrassView| f2l28_moves(b),
            (seq![0u8, 0, 0, 0, 0, 0, 0, 0, 0], seq![0u8, 0, 0, 0, 0, 0, 0, 0, 0], seq![0u8, 0, 0, 0, 0, 0, 0, 0, 0], Seq::<u32>::empty()),
            seq!["hbelt", "grass", "water", "hbelt", "vbelt", "grass", "water", "vbelt", "water"],
            views,
        ),
        views.last() == (seq![4u8, 3, 4, 3, 0, 3, 4, 3, 4], seq![0u8, 0, 0, 0, 0, 0, 0, 0, 0], seq![0u8, 0, 0, 0, 0, 0, 0, 0, 0], Seq::<u32>::empty()),
{
    lemma_level_bits();
    let v0: GrassView = (seq![0u8, 0, 0, 0, 0, 0, 0, 0, 0], seq![0u8, 0, 0, 0, 0, 0, 0, 0, 0], seq![0u8, 0, 0, 0, 0, 0, 0, 0, 0], Seq::<u32>::empty());
    let v1: GrassView = (seq![0u8, 0, 0, 0, 0, 0, 0, 0, 0], seq![0u8, 0, 0, 0, 0, 0, 0, 0, 0], seq![0u8, 0, 0, 0, 0, 0, 0, 0, 0], seq![56u32]);
    let v2: GrassView = (seq![1u8, 1, 1, 0, 0, 0, 1, 1, 1], seq![0u8, 0, 0, 0, 0, 0, 0, 0, 0], seq![0u8, 0, 0, 0, 0, 0, 0, 0, 0], seq![56u32]);
    let v3: GrassView = (seq![2u8, 2, 2, 0, 0, 0, 2, 2, 2], seq![0u8, 0, 0, 0, 0, 0, 0, 0, 0], seq![0u8, 0, 0, 0, 0, 0, 0, 0, 0], seq![56u32]);
    let v4: GrassView = (seq![2u8, 2, 2, 0, 0, 0, 2, 2, 2], seq![0u8, 0, 0, 0, 0, 0, 0, 0, 0], seq![0u8, 0, 0, 0, 0, 0, 0, 0, 0], Seq::<u32>::empty());
    let v5: GrassView = (seq![2u8, 2, 2, 0, 0, 0, 2, 2, 2], seq![0u8, 0, 0, 0, 0, 0, 0, 0, 0], seq![0u8, 0, 0, 0, 0, 0, 0, 0, 0], seq![146u32]);
    let v6: GrassView = (seq![2u8, 2, 2, 1, 0, 1, 2, 2, 2], seq![0u8, 0, 0, 0, 0, 0, 0, 0, 0], seq![0u8, 0, 0, 0, 0, 0, 0, 0, 0], seq![146u32]);
    let v7: GrassView = (seq![3u8, 2, 3, 2, 0, 2, 3, 2, 3], seq![0u8, 0, 0, 0, 0, 0, 0, 0, 0], seq![0u8, 0, 0, 0, 0, 0, 0, 0, 0], seq![146u32]);
    let v8: GrassView = (seq![3u8, 2, 3, 2, 0, 2, 3, 2, 3], seq![0u8, 0, 0, 0, 0, 0, 0, 0, 0], seq![0u8, 0, 0, 0, 0, 0, 0, 0, 0], Seq::<u32>::empty());
    let v9: GrassView = (seq![4u8, 3, 4, 3, 0, 3, 4, 3, 4], seq![0u8, 0, 0, 0, 0, 0, 0, 0, 0], seq![0u8, 0, 0, 0, 0, 0, 0, 0, 0], Seq::<u32>::empty());
    let moves = |b: GrassView| f2l28_moves(b);
    // step 1: hbelt
    assert(v0.3.len() == 0);
    assert(!v0.3.contains(56u32)) by { assert(v0.3.len() == 0); }
    assert(toggled(v0.3, 56, true) =~= v1.3);
    assert(moves(v0)[2] == ("hbelt", v1));
    // step 2: grass
    assert(seeded(v1.0, v1.3) =~= v2.0) by {
        lemma_masked_one(56, 0); lemma_masked_one(56, 1); lemma_masked_one(56, 2);
        lemma_masked_one(56, 3); lemma_masked_one(56, 4); lemma_masked_one(56, 5);
        lemma_masked_one(56, 6); lemma_masked_one(56, 7); lemma_masked_one(56, 8);
    }
    assert(moves(v1)[0] == ("grass", v2));
    // step 3: water
    assert(unmasked_map(v2.0, v2.3, |g: u8| watered_grass(g)) =~= v3.0) by {
        lemma_masked_one(56, 0); lemma_masked_one(56, 1); lemma_masked_one(56, 2);
        lemma_masked_one(56, 3); lemma_masked_one(56, 4); lemma_masked_one(56, 5);
        lemma_masked_one(56, 6); lemma_masked_one(56, 7); lemma_masked_one(56, 8);
    }
    assert(unmasked_map(v2.1, v2.3, |f: u8| watered_flower(f)) =~= v3.1) by {
        lemma_masked_one(56, 0); lemma_masked_one(56, 1); lemma_masked_one(56, 2);
        lemma_masked_one(56, 3); lemma_masked_one(56, 4); lemma_masked_one(56, 5);
        lemma_masked_one(56, 6); lemma_masked_one(56, 7); lemma_masked_one(56, 8);
    }
    assert(unmasked_map(v2.2, v2.3, |f: u8| watered_flower(f)) =~= v3.2) by {
        lemma_masked_one(56, 0); lemma_masked_one(56, 1); lemma_masked_one(56, 2);
        lemma_masked_one(56, 3); lemma_masked_one(56, 4); lemma_masked_one(56, 5);
        lemma_masked_one(56, 6); lemma_masked_one(56, 7); lemma_masked_one(56, 8);
    }
    assert(moves(v2)[1] == ("water", v3));
    // step 4: hbelt
    assert(v3.3.len() == 1 && v3.3.last() == 56u32);
    assert(v3.3.contains(56u32)) by { assert(v3.3.len() == 1); assert(v3.3[0] == 56u32); }
    assert(toggled(v3.3, 56, true) =~= v4.3) by {
        assert(v3.3.len() == 1); assert(v3.3[0] == 56u32); lemma_first_pos(v3.3, 56, 0);
        assert(v3.3.remove(0) =~= v4.3);
    }
    assert(moves(v3)[2] == ("hbelt", v4));
    // step 5: vbelt
    assert(v4.3.len() == 0);
    assert(!v4.3.contains(146u32)) by { assert(v4.3.len() == 0); }
    assert(toggled(v4.3, 146, true) =~= v5.3);
    assert(moves(v4)[3] == ("vbelt", v5));
    // step 6: grass
    assert(seeded(v5.0, v5.3) =~= v6.0) by {
        lemma_masked_one(146, 0); lemma_masked_one(146, 1); lemma_masked_one(146, 2);
        lemma_masked_one(146, 3); lemma_masked_one(146, 4); lemma_masked_one(146, 5);
        lemma_masked_one(146, 6); lemma_masked_one(146, 7); lemma_masked_one(146, 8);
    }
    assert(moves(v5)[0] == ("grass", v6));
    // step 7: water
    assert(unmasked_map(v6.0, v6.3, |g: u8| watered_grass(g)) =~= v7.0) by {
        lemma_masked_one(146, 0); lemma_masked_one(146, 1); lemma_masked_one(146, 2);
        lemma_masked_one(146, 3); lemma_masked_one(146, 4); lemma_masked_one(146, 5);
        lemma_masked_one(146, 6); lemma_masked_one(146, 7); lemma_masked_one(146, 8);
    }
    assert(unmasked_map(v6.1, v6.3, |f: u8| watered_flower(f)) =~= v7.1) by {
        lemma_masked_one(146, 0); lemma_masked_one(146, 1); lemma_masked_one(146, 2);
        lemma_masked_one(146, 3); lemma_masked_one(146, 4); lemma_masked_one(146, 5);
        lemma_masked_one(146, 6); lemma_masked_one(146, 7); lemma_masked_one(146, 8);
    }
    assert(unmasked_map(v6.2, v6.3, |f: u8| watered_flower(f)) =~= v7.2) by {
        lemma_masked_one(146, 0); lemma_masked_one(146, 1); lemma_masked_one(146, 2);
        lemma_masked_one(146, 3); lemma_masked_one(146, 4); lemma_masked_one(146, 5);
        lemma_masked_one(146, 6); lemma_masked_one(146, 7); lemma_masked_one(146, 8);
    }
    assert(moves(v6)[1] == ("water", v7));
    // step 8: vbelt
    assert(v7.3.len() == 1 && v7.3.last() == 146u32);
    assert(v7.3.contains(146u32)) by { assert(v7.3.len() == 1); assert(v7.3[0] == 146u32); }
    assert(toggled(v7.3, 146, true) =~= v8.3) by {
        assert(v7.3.len() == 1); assert(v7.3[0] == 146u32); lemma_first_pos(v7.3, 146, 0);
        assert(v7.3.remove(0) =~= v8.3);
    }
    assert(moves(v7)[3] == ("vbelt", v8));
    // step 9: water
    assert(unmasked_map(v8.0, v8.3, |g: u8| watered_grass(g)) =~= v9.0) by {
        lemma_masked_none(0); lemma_masked_none(1); lemma_masked_none(2); lemma_masked_none(3);
        lemma_masked_none(4); lemma_masked_none(5); lemma_masked_none(6); lemma_masked_none(7);
        lemma_masked_none(8);
    }
    assert(unmasked_map(v8.1, v8.3, |f: u8| watered_flower(f)) =~= v9.1) by {
        lemma_masked_none(0); lemma_masked_none(1); lemma_masked_none(2); lemma_masked_none(3);
        lemma_masked_none(4); lemma_masked_none(5); lemma_masked_none(6); lemma_masked_none(7);
        lemma_masked_none(8);
    }
    assert(unmasked_map(v8.2, v8.3, |f: u8| watered_flower(f)) =~= v9.2) by {
        lemma_masked_none(0); lemma_masked_none(1); lemma_masked_none(2); lemma_masked_none(3);
        lemma_masked_none(4); lemma_masked_none(5); lemma_masked_none(6); lemma_masked_none(7);
        lemma_masked_none(8);
    }
    assert(moves(v8)[1] == ("water", v9));
    let views = seq![v0, v1, v2, v3, v4, v5, v6, v7, v8, v9];
    let syms = seq!["hbelt", "grass", "water", "hbelt", "vbelt", "grass", "water", "vbelt", "water"];
    assert forall|i: int| 0 <= i < syms.len() implies #[trigger] moves(views[i]).contains((syms[i], views[i + 1])) by {
        if i == 0 { assert(moves(views[0])[2] == (syms[0], views[1])); }
        if i == 1 { assert(moves(views[1])[0] == (syms[1], views[2])); }
        if i == 2 { assert(moves(views[2])[1] == (syms[2], views[3])); }
        if i == 3 { assert(moves(views[3])[2] == (syms[3], views[4])); }
        if i == 4 { assert(moves(views[4])[3] == (syms[4], views[5])); }
        if i == 5 { assert(moves(views[5])[0] == (syms[5], views[6])); }
        if i == 6 { assert(moves(views[6])[1] == (syms[6], views[7])); }
        if i == 7 { assert(moves(views[7])[3] == (syms[7], views[8])); }
        if i == 8 { assert(moves(views[8])[1] == (syms[8], views[9])); }
    }
    views
}

/// Returns the tools, in order, of a shortest way to finish level 2-28.
///
/// - AREA:  0-8
/// - MASK:  3 4 5 hbelt, 1 4 7 vbelt
#[verifier::rlimit(100)]
#[verifier::spinoff_prover]
pub fn f2l28() -> (solution: Vec<&'static str>)
    ensures
        shortest_solution(
            |b: GrassView| f2l28_moves(b),
            (seq![0u8, 0, 0, 0, 0, 0, 0, 0, 0], seq![0u8, 0, 0, 0, 0, 0, 0, 0, 0], seq![0u8, 0, 0, 0, 0, 0, 0, 0, 0], Seq::<u32>::empty()),
            (seq![4u8, 3, 4, 3, 0, 3, 4, 3, 4], seq![0u8, 0, 0, 0, 0, 0, 0, 0, 0], seq![0u8, 0, 0, 0, 0, 0, 0, 0, 0], Seq::<u32>::empty()),
            solution@,
        ),
{
    let start = GrassBall { grass: [0; 9], yellow: [0; 9], blue: [0; 9], masks: vec![] };
    let end = GrassBall { grass: [4, 3, 4, 3, 0, 3, 4, 3, 4], yellow: [0; 9], blue: [0; 9], masks: vec![] };
    let neighbors = |ball: &GrassBall<9>| -> (moves: Vec<(&'static str, GrassBall<9>)>)
        requires
            plants_in_range(ball@),
        ensures
            move_views(moves@) == f2l28_moves(ball@),
            plants_in_range(ball@),
        {
            proof {
                lemma_mask_words();
            }
            let hbelt: &[u32] = &[3, 4, 5];
            assert(hbelt@ =~= seq![3u32, 4, 5]);
            let vbelt: &[u32] = &[1, 4, 7];
            assert(vbelt@ =~= seq![1u32, 4, 7]);
            let moves = vec![
                ("grass", ball.plant(0)),
                ("water", ball.water()),
                ("hbelt", ball.toggle_mask(hbelt, any_time, after_hbelt)),
                ("vbelt", ball.toggle_mask(vbelt, any_time, after_vbelt)),
            ];
            assert(move_views(moves@)[0] == f2l28_moves(ball@)[0]);
            assert(move_views(moves@)[1] == f2l28_moves(ball@)[1]);
            assert(move_views(moves@)[2] == f2l28_moves(ball@)[2]);
            assert(move_views(moves@)[3] == f2l28_moves(ball@)[3]);
            assert(move_views(moves@) =~= f2l28_moves(ball@));
            moves
        };
    let is_goal = |ball: &GrassBall<9>| -> (r: bool)
        ensures
            r == (ball@ == end@),
        {
            let same = *ball == end;
            same
        };
    let ghost moves = |b: GrassView| f2l28_moves(b);
    let starts = [start];
    proof {
        lemma_grass_ball_eq::<9>();
        assert(starts@ =~= seq![start]);
        assert(lists_moves(neighbors, moves));
        assert(tests_view(is_goal, end@));
        let views = lemma_f2l28_route();
        assert(start@.0 =~= seq![0u8, 0, 0, 0, 0, 0, 0, 0, 0]);
        assert(start@.1 =~= seq![0u8, 0, 0, 0, 0, 0, 0, 0, 0]);
        assert(start@.2 =~= seq![0u8, 0, 0, 0, 0, 0, 0, 0, 0]);
        assert(start@.3 =~= Seq::<u32>::empty());
        assert(end@.0 =~= seq![4u8, 3, 4, 3, 0, 3, 4, 3, 4]);
        assert(end@.1 =~= seq![0u8, 0, 0, 0, 0, 0, 0, 0, 0]);
        assert(end@.2 =~= seq![0u8, 0, 0, 0, 0, 0, 0, 0, 0]);
        assert(end@.3 =~= Seq::<u32>::empty());
        assert(follows(moves, start@, seq!["hbelt", "grass", "water", "hbelt", "vbelt", "grass", "water", "vbelt", "water"], views));
        lemma_view_route(neighbors, is_goal, moves, start, end@, seq!["hbelt", "grass", "water", "hbelt", "vbelt", "grass", "water", "vbelt", "water"], views);
        assert forall|v: GrassView, k: int| plants_in_range(v) && 0 <= k < f2l28_moves(v).len() implies plants_in_range(#[trigger] f2l28_moves(v)[k].1) by {
            lemma_f2l28_moves_in_range(v);
        }
        lemma_callable(neighbors, is_goal, moves, |b: GrassView| plants_in_range(b), start, 9);
    }
    let solution = bfs(&starts, neighbors, is_goal);
    proof {
        lemma_found(neighbors, is_goal, moves, start, end@, solution@);
    }
    solution
}

/// The moves of level 2-29.
pub open spec fn f2l29_moves(b: AreaView) -> Seq<(&'static str, AreaView)> {
    seq![
        ("black", (painted(b.0, b.1, seq![1u8, 1, 1, 1, 1, 1, 1, 1]), b.1)),
        ("blue", (painted(b.0, b.1, seq![2u8, 2, 2, 2, 2, 2, 2, 2]), b.1)),
        ("red", (painted(b.0, b.1, seq![3u8, 3, 3, 3, 3, 3, 3, 3]), b.1)),
        ("rotate", (if b.1.len() == 0 { rotated(b.0) } else { b.0 }, b.1)),
        ("cap", (b.0, toggled(b.1, 195, true))),
    ]
}

/// The states that a solution of level 2-29 passes through.
#[verifier::rlimit(100)]
#[verifier::spinoff_prover]
proof fn lemma_f2l29_route() -> (views: Seq<AreaView>)
    ensures
        follows(
            |b: AreaView| f2l29_moves(b),
            (seq![0u8, 0, 0, 0, 0, 0, 0, 0], Seq::<u32>::empty()),
            seq!["cap", "black", "cap", "rotate", "rotate", "rotate", "rotate", "rotate", "rotate", "cap", "blue", "cap", "rotate", "cap", "red", "cap", "rotate", "rotate"],
            views,
        ),
        views.last() == (seq![2u8, 0, 0, 1, 3, 3, 3, 3], Seq::<u32>::empty()),
{
    lemma_level_bits();
    let v0: AreaView = (seq![0u8, 0, 0, 0, 0, 0, 0, 0], Seq::<u32>::empty());
    let v1: AreaView = (seq![0u8, 0, 0, 0, 0, 0, 0, 0], seq![195u32]);
    let v2: AreaView = (seq![0u8, 0, 1, 1, 1, 1, 0, 0], seq![195u32]);
    let v3: AreaView = (seq![0u8, 0, 1, 1, 1, 1, 0, 0], Seq::<u32>::empty());
    let v4: AreaView = (seq![0u8, 0, 0, 1, 1, 1, 1, 0], Seq::<u32>::empty());
    let v5: AreaView = (seq![0u8, 0, 0, 0, 1, 1, 1, 1], Seq::<u32>::empty());
    let v6: AreaView = (seq![1u8, 0, 0, 0, 0, 1, 1, 1], Seq::<u32>::empty());
    let v7: AreaView = (seq![1u8, 1, 0, 0, 0, 0, 1, 1], Seq::<u32>::empty());
    let v8: AreaView = (seq![1u8, 1, 1, 0, 0, 0, 0, 1], Seq::<u32>::empty());
    let v9: AreaView = (seq![1u8, 1, 1, 1, 0, 0, 0, 0], Seq::<u32>::empty());
    let v10: AreaView = (seq![1u8, 1, 1, 1, 0, 0, 0, 0], seq![195u32]);
    let v11: AreaView = (seq![1u8, 1, 2, 2, 2, 2, 0, 0], seq![195u32]);
    let v12: AreaView = (seq![1u8, 1, 2, 2, 2, 2, 0, 0], Seq::<u32>::empty());
    let v13: AreaView = (seq![0u8, 1, 1, 2, 2, 2, 2, 0], Seq::<u32>::empty());
    let v14: AreaView = (seq![0u8, 1, 1, 2, 2, 2, 2, 0], seq![195u32]);
    let v15: AreaView = (seq![0u8, 1, 3, 3, 3, 3, 2, 0], seq![195u32]);
    let v16: AreaView = (seq![0u8, 1, 3, 3, 3, 3, 2, 0], Seq::<u32>::empty());
    let v17: AreaView = (seq![0u8, 0, 1, 3, 3, 3, 3, 2], Seq::<u32>::empty());
    let v18: AreaView = (seq![2u8, 0, 0, 1, 3, 3, 3, 3], Seq::<u32>::empty());
    let moves = |b: AreaView| f2l29_moves(b);
    // step 1: cap
    assert(v0.1.len() == 0);
    assert(!v0.1.contains(195u32)) by { assert(v0.1.len() == 0); }
    assert(toggled(v0.1, 195, true) =~= v1.1);
    assert(moves(v0)[4] == ("cap", v1));
    // step 2: black
    assert(painted(v1.0, v1.1, seq![1u8, 1, 1, 1, 1, 1, 1, 1]) =~= v2.0) by {
        lemma_masked_one(195, 0); lemma_masked_one(195, 1); lemma_masked_one(195, 2);
        lemma_masked_one(195, 3); lemma_masked_one(195, 4); lemma_masked_one(195, 5);
        lemma_masked_one(195, 6); lemma_masked_one(195, 7);
    }
    assert(moves(v1)[0] == ("black", v2));
    // step 3: cap
    assert(v2.1.len() == 1 && v2.1.last() == 195u32);
    assert(v2.1.contains(195u32)) by { assert(v2.1.len() == 1); assert(v2.1[0] == 195u32); }
    assert(toggled(v2.1, 195, true) =~= v3.1) by {
        assert(v2.1.len() == 1); assert(v2.1[0] == 195u32); lemma_first_pos(v2.1, 195, 0);
        assert(v2.1.remove(0) =~= v3.1);
    }
    assert(moves(v2)[4] == ("cap", v3));
    // step 4: rotate
    assert(rotated(v3.0) =~= v4.0);
    assert(moves(v3)[3] == ("rotate", v4));
    // step 5: rotate
    assert(rotated(v4.0) =~= v5.0);
    assert(moves(v4)[3] == ("rotate", v5));
    // step 6: rotate
    assert(rotated(v5.0) =~= v6.0);
    assert(moves(v5)[3] == ("rotate", v6));
    // step 7: rotate
    assert(rotated(v6.0) =~= v7.0);
    assert(moves(v6)[3] == ("rotate", v7));
    // step 8: rotate
    assert(rotated(v7.0) =~= v8.0);
    assert(moves(v7)[3] == ("rotate", v8));
    // step 9: rotate
    assert(rotated(v8.0) =~= v9.0);
    assert(moves(v8)[3] == ("rotate", v9));
    // step 10: cap
    assert(v9.1.len() == 0);
    assert(!v9.1.contains(195u32)) by { assert(v9.1.len() == 0); }
    assert(toggled(v9.1, 195, true) =~= v10.1);
    assert(moves(v9)[4] == ("cap", v10));
    // step 11: blue
    assert(painted(v10.0, v10.1, seq![2u8, 2, 2, 2, 2, 2, 2, 2]) =~= v11.0) by {
        lemma_masked_one(195, 0); lemma_masked_one(195, 1); lemma_masked_one(195, 2);
        lemma_masked_one(195, 3); lemma_masked_one(195, 4); lemma_masked_one(195, 5);
        lemma_masked_one(195, 6); lemma_masked_one(195, 7);
    }
    assert(moves(v10)[1] == ("blue", v11));
    // step 12: cap
    assert(v11.1.len() == 1 && v11.1.last() == 195u32);
    assert(v11.1.contains(195u32)) by { assert(v11.1.len() == 1); assert(v11.1[0] == 195u32); }
    assert(toggled(v11.1, 195, true) =~= v12.1) by {
        assert(v11.1.len() == 1); assert(v11.1[0] == 195u32); lemma_first_pos(v11.1, 195, 0);
        assert(v11.1.remove(0) =~= v12.1);
    }
    assert(moves(v11)[4] == ("cap", v12));
    // step 13: rotate
    assert(rotated(v12.0) =~= v13.0);
    assert(moves(v12)[3] == ("rotate", v13));
    // step 14: cap
    assert(v13.1.len() == 0);
    assert(!v13.1.contains(195u32)) by { assert(v13.1.len() == 0); }
    assert(toggled(v13.1, 195, true) =~= v14.1);
    assert(moves(v13)[4] == ("cap", v14));
    // step 15: red
    assert(painted(v14.0, v14.1, seq![3u8, 3, 3, 3, 3, 3, 3, 3]) =~= v15.0) by {
        lemma_masked_one(195, 0); lemma_masked_one(195, 1); lemma_masked_one(195, 2);
        lemma_masked_one(195, 3); lemma_masked_one(195, 4); lemma_masked_one(195, 5);
        lemma_masked_one(195, 6); lemma_masked_one(195, 7);
    }
    assert(moves(v14)[2] == ("red", v15));
    // step 16: cap
    assert(v15.1.len() == 1 && v15.1.last() == 195u32);
    assert(v15.1.contains(195u32)) by { assert(v15.1.len() == 1); assert(v15.1[0] == 195u32); }
    assert(toggled(v15.1, 195, true) =~= v16.1) by {
        assert(v15.1.len() == 1); assert(v15.1[0] == 195u32); lemma_first_pos(v15.1, 195, 0);
        assert(v15.1.remove(0) =~= v16.1);
    }
    assert(moves(v15)[4] == ("cap", v16));
    // step 17: rotate
    assert(rotated(v16.0) =~= v17.0);
    assert(moves(v16)[3] == ("rotate", v17));
    // step 18: rotate
    assert(rotated(v17.0) =~= v18.0);
    assert(moves(v17)[3] == ("rotate", v18));
    let views = seq![v0, v1, v2, v3, v4, v5, v6, v7, v8, v9, v10, v11, v12, v13, v14, v15, v16, v17, v18];
    let syms = seq!["cap", "black", "cap", "rotate", "rotate", "rotate", "rotate", "rotate", "rotate", "cap", "blue", "cap", "rotate", "cap", "red", "cap", "rotate", "rotate"];
    assert forall|i: int| 0 <= i < syms.len() implies #[trigger] moves(views[i]).contains((syms[i], views[i + 1])) by {
        if i == 0 { assert(moves(views[0])[4] == (syms[0], views[1])); }
        if i == 1 { assert(moves(views[1])[0] == (syms[1], views[2])); }
        if i == 2 { assert(moves(views[2])[4] == (syms[2], views[3])); }
        if i == 3 { assert(moves(views[3])[3] == (syms[3], views[4])); }
        if i == 4 { assert(moves(views[4])[3] == (syms[4], views[5])); }
        if i == 5 { assert(moves(views[5])[3] == (syms[5], views[6])); }
        if i == 6 { assert(moves(views[6])[3] == (syms[6], views[7])); }
        if i == 7 { assert(moves(views[7])[3] == (syms[7], views[8])); }
        if i == 8 { assert(moves(views[8])[3] == (syms[8], views[9])); }
        if i == 9 { assert(moves(views[9])[4] == (syms[9], views[10])); }
        if i == 10 { assert(moves(views[10])[1] == (syms[10], views[11])); }
        if i == 11 { assert(moves(views[11])[4] == (syms[11], views[12])); }
        if i == 12 { assert(moves(views[12])[3] == (syms[12], views[13])); }
        if i == 13 { assert(moves(views[13])[4] == (syms[13], views[14])); }
        if i == 14 { assert(moves(views[14])[2] == (syms[14], views[15])); }
        if i == 15 { assert(moves(views[15])[4] == (syms[15], views[16])); }
        if i == 16 { assert(moves(views[16])[3] == (syms[16], views[17])); }
        if i == 17 { assert(moves(views[17])[3] == (syms[17], views[18])); }
    }
    views
}

/// Returns the tools, in order, of a shortest way to finish level 2-29.
///
/// - AREA:  rotation
/// - COLOR: 1 black, 2 blue, 3 red
/// - MASK:  0 1 6 7 cap
#[verifier::rlimit(100)]
#[verifier::spinoff_prover]
pub fn f2l29() -> (solution: Vec<&'static str>)
    ensures
        shortest_solution(
            |b: AreaView| f2l29_moves(b),
            (seq![0u8, 0, 0, 0, 0, 0, 0, 0], Seq::<u32>::empty()),
            (seq![2u8, 0, 0, 1, 3, 3, 3, 3], Seq::<u32>::empty()),
            solution@,
        ),
{
    let start = AreaBall { color: [0; 8], masks: vec![] };
    let end = AreaBall { color: [2, 0, 0, 1, 3, 3, 3, 3], masks: vec![] };
    let neighbors = |ball: &AreaBall<8>| -> (moves: Vec<(&'static str, AreaBall<8>)>)
        ensures
            move_views(moves@) == f2l29_moves(ball@),
        {
            proof {
                lemma_mask_words();
            }
            let cap: &[u32] = &[0, 1, 6, 7];
            assert(cap@ =~= seq![0u32, 1, 6, 7]);
            let moves = vec![
                ("black", ball.paint([1; 8])),
                ("blue", ball.paint([2; 8])),
                ("red", ball.paint([3; 8])),
                ("rotate", ball.rotate_ccw()),
                ("cap", ball.toggle_mask(cap, any_time, any_time)),
            ];
            assert(move_views(moves@)[0] == f2l29_moves(ball@)[0]);
            assert(move_views(moves@)[1] == f2l29_moves(ball@)[1]);
            assert(move_views(moves@)[2] == f2l29_moves(ball@)[2]);
            assert(move_views(moves@)[3] == f2l29_moves(ball@)[3]);
            assert(move_views(moves@)[4] == f2l29_moves(ball@)[4]);
            assert(move_views(moves@) =~= f2l29_moves(ball@));
            moves
        };
    let is_goal = |ball: &AreaBall<8>| -> (r: bool)
        ensures
            r == (ball@ == end@),
        {
            let same = *ball == end;
            same
        };
    let ghost moves = |b: AreaView| f2l29_moves(b);
    let starts = [start];
    proof {
        lemma_area_ball_eq::<8>();
        assert(starts@ =~= seq![start]);
        assert(lists_moves(neighbors, moves));
        assert(tests_view(is_goal, end@));
        let views = lemma_f2l29_route();
        assert(start@.0 =~= seq![0u8, 0, 0, 0, 0, 0, 0, 0]);
        assert(start@.1 =~= Seq::<u32>::empty());
        assert(end@.0 =~= seq![2u8, 0, 0, 1, 3, 3, 3, 3]);
        assert(end@.1 =~= Seq::<u32>::empty());
        assert(follows(moves, start@, seq!["cap", "black", "cap", "rotate", "rotate", "rotate", "rotate", "rotate", "rotate", "cap", "blue", "cap", "rotate", "cap", "red", "cap", "rotate", "rotate"], views));
        lemma_view_route(neighbors, is_goal, moves, start, end@, seq!["cap", "black", "cap", "rotate", "rotate", "rotate", "rotate", "rotate", "rotate", "cap", "blue", "cap", "rotate", "cap", "red", "cap", "rotate", "rotate"], views);
        lemma_callable(neighbors, is_goal, moves, |b: AreaView| true, start, 18);
    }
    let solution = bfs(&starts, neighbors, is_goal);
    proof {
        lemma_found(neighbors, is_goal, moves, start, end@, solution@);
    }
    solution
}

} // verus!
