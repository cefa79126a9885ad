use vstd::prelude::*;
use vstd::laws_eq::obeys_view_eq;

verus! {

/// Whether `(sym, q)` is one of the moves that `neighbors` lists for state `p`.
pub open spec fn is_move<T: View, SYMBOL, N: Fn(&T) -> Vec<(SYMBOL, T)>>(
    neighbors: N,
    p: T,
    sym: SYMBOL,
    q: T,
) -> bool {
    exists|out: Vec<(SYMBOL, T)>| #[trigger]
        call_ensures(neighbors, (&p,), out) && out@.contains((sym, q))
}

/// Whether `is_goal` accepts state `q`.
pub open spec fn accepts<T, G: Fn(&T) -> bool>(is_goal: G, q: T) -> bool {
    call_ensures(is_goal, (&q,), true)
}

/// Whether `states` is a walk that starts at one of `starts` and follows,
/// step by step, the moves labelled by `syms`.
pub open spec fn is_route<T: View, SYMBOL, N: Fn(&T) -> Vec<(SYMBOL, T)>>(
    neighbors: N,
    starts: Seq<T>,
    syms: Seq<SYMBOL>,
    states: Seq<T>,
) -> bool {
    &&& states.len() == syms.len() + 1
    &&& starts.contains(states[0])
    &&& forall|i: int|
        0 <= i < syms.len() ==> #[trigger] is_move(neighbors, states[i], syms[i], states[i + 1])
}

/// Whether `states` is a route, labelled by `syms`, that ends in an accepted
/// state and, after its first state, never meets the view of a starting state.
pub open spec fn is_goal_route<T: View, SYMBOL, N: Fn(&T) -> Vec<(SYMBOL, T)>, G: Fn(&T) -> bool>(
    neighbors: N,
    is_goal: G,
    starts: Seq<T>,
    syms: Seq<SYMBOL>,
    states: Seq<T>,
) -> bool {
    &&& is_route(neighbors, starts, syms, states)
    &&& accepts(is_goal, states.last())
    &&& forall|m: int| 1 <= m < states.len() ==> !starts_view(starts, #[trigger] states[m]@)
}

/// Whether `is_goal` accepts `q` whatever it returns on it.
pub open spec fn always_accepts<T, G: Fn(&T) -> bool>(is_goal: G, q: T) -> bool {
    forall|r: bool| #[trigger] call_ensures(is_goal, (&q,), r) ==> r
}

/// Whether `is_goal` always accepts one of the starting states.
pub open spec fn start_accepted<T, G: Fn(&T) -> bool>(is_goal: G, starts: Seq<T>) -> bool {
    exists|k: int| 0 <= k < starts.len() && #[trigger] always_accepts(is_goal, starts[k])
}

/// Whether some starting state has view `v`.
pub open spec fn starts_view<T: View>(starts: Seq<T>, v: T::V) -> bool {
    exists|k: int| 0 <= k < starts.len() && #[trigger] starts[k]@ == v
}

/// Whether, from every state with view `pv`, `neighbors` lists a move
/// labelled `sym` to a state with view `qv`.
pub open spec fn leads<T: View, SYMBOL, N: Fn(&T) -> Vec<(SYMBOL, T)>>(
    neighbors: N,
    pv: T::V,
    sym: SYMBOL,
    qv: T::V,
) -> bool {
    forall|p: T, out: Vec<(SYMBOL, T)>|
        p@ == pv && #[trigger] call_ensures(neighbors, (&p,), out) ==> exists|x: T|
            #[trigger] out@.contains((sym, x)) && x@ == qv
}

/// Whether `is_goal` accepts every state with view `v`.
pub open spec fn view_accepted<T: View, G: Fn(&T) -> bool>(is_goal: G, v: T::V) -> bool {
    forall|q: T, r: bool| q@ == v && #[trigger] call_ensures(is_goal, (&q,), r) ==> r
}

/// Whether `views` is a walk of views that starts at the view of a starting
/// state and follows, step by step, moves labelled by `syms`.
pub open spec fn is_view_route<T: View, SYMBOL, N: Fn(&T) -> Vec<(SYMBOL, T)>>(
    neighbors: N,
    starts: Seq<T>,
    syms: Seq<SYMBOL>,
    views: Seq<T::V>,
) -> bool {
    &&& views.len() == syms.len() + 1
    &&& starts_view(starts, views[0])
    &&& forall|i: int|
        0 <= i < syms.len() ==> #[trigger] leads(neighbors, views[i], syms[i], views[i + 1])
}

/// Whether `views` is a walk of views, labelled by `syms`, that ends at an
/// accepted view.
pub open spec fn is_view_goal_route<
    T: View,
    SYMBOL,
    N: Fn(&T) -> Vec<(SYMBOL, T)>,
    G: Fn(&T) -> bool,
>(neighbors: N, is_goal: G, starts: Seq<T>, syms: Seq<SYMBOL>, views: Seq<T::V>) -> bool {
    &&& is_view_route(neighbors, starts, syms, views)
    &&& view_accepted(is_goal, views.last())
}

/// The closures can be called wherever a search that stops at distance `n`
/// calls them: `is_goal` on the starting states, `neighbors` on every state
/// that a route of fewer than `n` moves reaches, and `is_goal` on every state
/// that `neighbors` lists for such a state.
pub open spec fn callable_within<
    T: View,
    SYMBOL,
    N: Fn(&T) -> Vec<(SYMBOL, T)>,
    G: Fn(&T) -> bool,
>(starts: Seq<T>, neighbors: N, is_goal: G, n: int) -> bool {
    &&& forall|k: int| 0 <= k < starts.len() ==> call_requires(is_goal, (&#[trigger] starts[k],))
    &&& forall|syms: Seq<SYMBOL>, states: Seq<T>|
        #[trigger] is_route(neighbors, starts, syms, states) && syms.len() < n ==> {
            &&& call_requires(neighbors, (&states.last(),))
            &&& forall|out: Vec<(SYMBOL, T)>, i: int|
                #![trigger call_ensures(neighbors, (&states.last(),), out), out@[i]]
                call_ensures(neighbors, (&states.last(),), out) && 0 <= i < out@.len()
                    ==> call_requires(is_goal, (&out@[i].1,))
        }
}

/// Every starting state was tested and rejected.
spec fn starts_rejected<T, G: Fn(&T) -> bool>(is_goal: G, starts: Seq<T>) -> bool {
    forall|k: int| 0 <= k < starts.len() ==> call_ensures(is_goal, (&#[trigger] starts[k],), false)
}

/// Where a discovered state was first reached from.
#[derive(Clone, Copy)]
enum Origin {
    Start(usize),
    Found(usize),
}

spec fn origin_index(o: Origin, ns: int) -> int {
    match o {
        Origin::Start(i) => i as int,
        Origin::Found(k) => ns + k,
    }
}

/// The search queue: the starting states followed by the discovered ones.
spec fn queue<T>(starts: Seq<T>, states: Seq<T>) -> Seq<T> {
    starts + states
}

spec fn in_queue_within<T: View>(q: Seq<T>, lv: Seq<nat>, x: T::V, bound: int) -> bool {
    exists|j: int| 0 <= j < q.len() && #[trigger] q[j]@ == x && lv[j] <= bound
}

spec fn parent_ok<T: View, SYMBOL, N: Fn(&T) -> Vec<(SYMBOL, T)>>(
    neighbors: N,
    starts: Seq<T>,
    states: Seq<T>,
    parents: Seq<Origin>,
    labels: Seq<SYMBOL>,
    lv: Seq<nat>,
    head: int,
    k: int,
) -> bool {
    let ns = starts.len() as int;
    let p = origin_index(parents[k], ns);
    &&& 0 <= p < ns + k
    &&& p <= head
    &&& (parents[k] is Start ==> p < ns)
    &&& lv[ns + k] == lv[p] + 1
    &&& is_move(neighbors, queue(starts, states)[p], labels[k], states[k])
}

/// The search tree built so far is consistent: levels are distances along
/// parent links, non-decreasing along the queue, and discovered states are new.
spec fn tree_ok<T: View, SYMBOL, N: Fn(&T) -> Vec<(SYMBOL, T)>>(
    neighbors: N,
    starts: Seq<T>,
    states: Seq<T>,
    parents: Seq<Origin>,
    labels: Seq<SYMBOL>,
    lv: Seq<nat>,
    head: int,
) -> bool {
    let ns = starts.len() as int;
    let q = queue(starts, states);
    &&& parents.len() == states.len()
    &&& labels.len() == states.len()
    &&& lv.len() == q.len()
    &&& forall|i: int| 0 <= i < ns ==> #[trigger] lv[i] == 0
    &&& forall|k: int|
        0 <= k < states.len() ==> #[trigger] parent_ok(
            neighbors,
            starts,
            states,
            parents,
            labels,
            lv,
            head,
            k,
        )
    &&& forall|i: int, j: int| 0 <= i <= j < q.len() ==> #[trigger] lv[i] <= #[trigger] lv[j]
    &&& forall|k: int| 0 <= k < states.len() ==> !starts_view(starts, #[trigger] states[k]@)
    &&& forall|k1: int, k2: int|
        0 <= k1 < k2 < states.len() ==> #[trigger] states[k1]@ != #[trigger] states[k2]@
}

/// Every move out of an expanded queue position leads to a queued state at
/// most one level deeper.
spec fn closed_upto<T: View, SYMBOL, N: Fn(&T) -> Vec<(SYMBOL, T)>>(
    neighbors: N,
    starts: Seq<T>,
    states: Seq<T>,
    lv: Seq<nat>,
    head: int,
) -> bool {
    let q = queue(starts, states);
    forall|i: int, sym: SYMBOL, x: T::V|
        0 <= i < head && #[trigger] leads(neighbors, q[i]@, sym, x) ==> in_queue_within(
            q,
            lv,
            x,
            lv[i] + 1 as int,
        )
}

/// Every discovered state was tested and rejected.
spec fn none_accepted<T, G: Fn(&T) -> bool>(is_goal: G, states: Seq<T>, upto: int) -> bool {
    forall|k: int| 0 <= k < upto ==> call_ensures(is_goal, (&#[trigger] states[k],), false)
}

proof fn lemma_route_prefix<T: View, SYMBOL, N: Fn(&T) -> Vec<(SYMBOL, T)>>(
    neighbors: N,
    starts: Seq<T>,
    syms: Seq<SYMBOL>,
    route: Seq<T::V>,
    len: int,
)
    requires
        is_view_route(neighbors, starts, syms, route),
        0 <= len <= syms.len(),
    ensures
        is_view_route(neighbors, starts, syms.take(len), route.take(len + 1)),
{
    let s2 = syms.take(len);
    let r2 = route.take(len + 1);
    assert forall|i: int| 0 <= i < s2.len() implies #[trigger] leads(
        neighbors,
        r2[i],
        s2[i],
        r2[i + 1],
    ) by {
        assert(leads(neighbors, route[i], syms[i], route[i + 1]));
    }
    assert(r2[0] == route[0]);
}

/// States reachable in at most `m` moves are queued at a level no deeper than
/// the route length, once every queued state above level `m` has been expanded.
proof fn lemma_reach<T: View, SYMBOL, N: Fn(&T) -> Vec<(SYMBOL, T)>>(
    neighbors: N,
    starts: Seq<T>,
    states: Seq<T>,
    lv: Seq<nat>,
    head: int,
    m: int,
    syms: Seq<SYMBOL>,
    route: Seq<T::V>,
)
    requires
        lv.len() == starts.len() + states.len(),
        0 <= head <= lv.len(),
        forall|i: int| 0 <= i < starts.len() ==> #[trigger] lv[i] == 0,
        closed_upto(neighbors, starts, states, lv, head),
        forall|i: int| 0 <= i < lv.len() && lv[i] < m ==> i < head,
        is_view_route(neighbors, starts, syms, route),
        syms.len() <= m,
    ensures
        in_queue_within(queue(starts, states), lv, route.last(), syms.len() as int),
    decreases syms.len(),
{
    let q = queue(starts, states);
    let len = syms.len() as int;
    if len == 0 {
        let i = choose|i: int| 0 <= i < starts.len() && #[trigger] starts[i]@ == route[0];
        assert(q[i] == starts[i]);
        assert(q[i]@ == route.last());
    } else {
        lemma_route_prefix(neighbors, starts, syms, route, len - 1);
        let s2 = syms.take(len - 1);
        let r2 = route.take(len);
        lemma_reach(neighbors, starts, states, lv, head, m, s2, r2);
        let j0 = choose|j: int| 0 <= j < q.len() && #[trigger] q[j]@ == r2.last() && lv[j] <= len - 1;
        assert(r2.last() == route[len - 1]);
        assert(j0 < head);
        assert(leads(neighbors, route[len - 1], syms[len - 1], route[len]));
        assert(leads(neighbors, q[j0]@, syms[len - 1], route.last()));
        let j = choose|j: int| 0 <= j < q.len() && #[trigger] q[j]@ == route.last() && lv[j] <= lv[j0] + 1;
        assert(q[j]@ == route.last() && lv[j] <= len);
    }
}


/// Levels of the queue exceed the level at `head` by at most one.
spec fn shallow(lv: Seq<nat>, head: int) -> bool {
    &&& 0 <= head < lv.len()
    &&& forall|j: int| 0 <= j < lv.len() ==> #[trigger] lv[j] <= lv[head] + 1
}

spec fn trail_labels<SYMBOL>(parents: Seq<Origin>, labels: Seq<SYMBOL>, k: int) -> Seq<SYMBOL>
    decreases k,
{
    if 0 <= k < parents.len() {
        match parents[k] {
            Origin::Found(j) => if j < k {
                trail_labels(parents, labels, j as int).push(labels[k])
            } else {
                seq![labels[k]]
            },
            Origin::Start(_) => seq![labels[k]],
        }
    } else {
        seq![]
    }
}

spec fn trail_states<T>(starts: Seq<T>, states: Seq<T>, parents: Seq<Origin>, k: int) -> Seq<T>
    decreases k,
{
    if 0 <= k < parents.len() {
        match parents[k] {
            Origin::Found(j) => if j < k {
                trail_states(starts, states, parents, j as int).push(states[k])
            } else {
                seq![states[k]]
            },
            Origin::Start(i) => seq![starts[i as int], states[k]],
        }
    } else {
        seq![]
    }
}

proof fn lemma_trail<T: View, SYMBOL, N: Fn(&T) -> Vec<(SYMBOL, T)>>(
    neighbors: N,
    starts: Seq<T>,
    states: Seq<T>,
    parents: Seq<Origin>,
    labels: Seq<SYMBOL>,
    lv: Seq<nat>,
    head: int,
    k: int,
)
    requires
        tree_ok(neighbors, starts, states, parents, labels, lv, head),
        0 <= k < states.len(),
    ensures
        is_route(
            neighbors,
            starts,
            trail_labels(parents, labels, k),
            trail_states(starts, states, parents, k),
        ),
        trail_labels(parents, labels, k).len() == lv[starts.len() + k],
        trail_states(starts, states, parents, k).last() == states[k],
        forall|m: int|
            1 <= m < trail_states(starts, states, parents, k).len() ==> !starts_view(
                starts,
                #[trigger] trail_states(starts, states, parents, k)[m]@,
            ),
    decreases k,
{
    let ns = starts.len() as int;
    assert(parent_ok(neighbors, starts, states, parents, labels, lv, head, k));
    let q = queue(starts, states);
    match parents[k] {
        Origin::Found(j) => {
            let j = j as int;
            assert(j < k);
            lemma_trail(neighbors, starts, states, parents, labels, lv, head, j);
            let ls = trail_labels(parents, labels, j);
            let ss = trail_states(starts, states, parents, j);
            let ls2 = trail_labels(parents, labels, k);
            let ss2 = trail_states(starts, states, parents, k);
            assert(ls2 == ls.push(labels[k]));
            assert(ss2 == ss.push(states[k]));
            assert(q[ns + j] == states[j]);
            assert forall|i: int| 0 <= i < ls2.len() implies #[trigger] is_move(
                neighbors,
                ss2[i],
                ls2[i],
                ss2[i + 1],
            ) by {
                if i < ls.len() {
                    assert(is_move(neighbors, ss[i], ls[i], ss[i + 1]));
                } else {
                    assert(ss2[i] == states[j]);
                }
            }
            assert(ss2[0] == ss[0]);
            assert forall|m: int| 1 <= m < ss2.len() implies !starts_view(starts, #[trigger] ss2[m]@) by {
                if m < ss.len() {
                    assert(ss2[m] == ss[m]);
                } else {
                    assert(ss2[m] == states[k]);
                }
            }
        },
        Origin::Start(i) => {
            let ls2 = trail_labels(parents, labels, k);
            let ss2 = trail_states(starts, states, parents, k);
            assert(q[i as int] == starts[i as int]);
            assert(is_move(neighbors, ss2[0], ls2[0], ss2[1]));
            assert(starts.contains(ss2[0]));
            assert(ss2[1] == states[k]);
        },
    }
}

proof fn lemma_in_queue_grow<T: View>(
    q: Seq<T>,
    lv: Seq<nat>,
    q2: Seq<T>,
    lv2: Seq<nat>,
    x: T::V,
    b: int,
)
    requires
        in_queue_within(q, lv, x, b),
        q2.len() >= q.len(),
        lv2.len() >= lv.len(),
        forall|j: int| 0 <= j < q.len() ==> q2[j] == q[j],
        forall|j: int| 0 <= j < lv.len() ==> lv2[j] == lv[j],
        lv.len() == q.len(),
    ensures
        in_queue_within(q2, lv2, x, b),
{
    let j = choose|j: int| 0 <= j < q.len() && #[trigger] q[j]@ == x && lv[j] <= b;
    assert(q2[j]@ == x);
}

/// A search queue that cannot produce a goal any more contradicts the
/// existence of a goal route.
proof fn lemma_goal_queued<T: View, SYMBOL, N: Fn(&T) -> Vec<(SYMBOL, T)>, G: Fn(&T) -> bool>(
    neighbors: N,
    is_goal: G,
    starts: Seq<T>,
    states: Seq<T>,
    parents: Seq<Origin>,
    labels: Seq<SYMBOL>,
    lv: Seq<nat>,
    head: int,
    syms: Seq<SYMBOL>,
    route: Seq<T::V>,
) -> (j: int)
    requires
        tree_ok(neighbors, starts, states, parents, labels, lv, head),
        0 <= head <= lv.len(),
        closed_upto(neighbors, starts, states, lv, head),
        forall|i: int| 0 <= i < lv.len() && lv[i] < syms.len() ==> i < head,
        is_view_goal_route(neighbors, is_goal, starts, syms, route),
        starts_rejected(is_goal, starts),
    ensures
        0 <= j < states.len(),
        states[j]@ == route.last(),
        lv[starts.len() + j] <= syms.len(),
{
    lemma_reach(neighbors, starts, states, lv, head, syms.len() as int, syms, route);
    let q = queue(starts, states);
    let i = choose|i: int| 0 <= i < q.len() && #[trigger] q[i]@ == route.last() && lv[i] <= syms.len();
    if i < starts.len() {
        assert(q[i] == starts[i]);
        assert(call_ensures(is_goal, (&starts[i],), false));
        assert(false);
    }
    let j = i - starts.len();
    assert(q[i] == states[j]);
    j
}

/// Whether `items` holds a state with the view of `x`.
fn contains_state<T: PartialEq + View>(items: &[T], x: &T) -> (found: bool)
    requires
        obeys_view_eq::<T>(),
    ensures
        found == starts_view(items@, x@),
{
    proof {
        reveal(obeys_view_eq);
    }
    let mut i: usize = 0;
    while i < items.len()
        invariant
            i <= items@.len(),
            obeys_view_eq::<T>(),
            forall|j: int| 0 <= j < i ==> items@[j]@ != x@,
        decreases items@.len() - i,
    {
        proof {
            reveal(obeys_view_eq);
        }
        if items[i] == *x {
            assert(items@[i as int]@ == x@);
            return true;
        }
        i = i + 1;
    }
    false
}


/// Adds the move `(sym, x)` out of queue position `head` to the search tree.
proof fn lemma_push_node<T: View, SYMBOL, N: Fn(&T) -> Vec<(SYMBOL, T)>>(
    neighbors: N,
    starts: Seq<T>,
    states: Seq<T>,
    parents: Seq<Origin>,
    labels: Seq<SYMBOL>,
    lv: Seq<nat>,
    head: int,
    origin: Origin,
    sym: SYMBOL,
    x: T,
    out: Vec<(SYMBOL, T)>,
)
    requires
        tree_ok(neighbors, starts, states, parents, labels, lv, head),
        shallow(lv, head),
        origin_index(origin, starts.len() as int) == head,
        origin is Start ==> head < starts.len(),
        call_ensures(neighbors, (&queue(starts, states)[head],), out),
        out@.contains((sym, x)),
        !starts_view(states, x@),
        !starts_view(starts, x@),
    ensures
        tree_ok(
            neighbors,
            starts,
            states.push(x),
            parents.push(origin),
            labels.push(sym),
            lv.push((lv[head] + 1) as nat),
            head,
        ),
        shallow(lv.push((lv[head] + 1) as nat), head),
        forall|j: int| 0 <= j < lv.len() ==> lv.push((lv[head] + 1) as nat)[j] == lv[j],
        forall|j: int|
            0 <= j < queue(starts, states).len() ==> queue(starts, states.push(x))[j] == queue(
                starts,
                states,
            )[j],
        queue(starts, states.push(x)).len() == queue(starts, states).len() + 1,
        queue(starts, states.push(x))[queue(starts, states).len() as int] == x,
{
    let ns = starts.len() as int;
    let q = queue(starts, states);
    let states2 = states.push(x);
    let parents2 = parents.push(origin);
    let labels2 = labels.push(sym);
    let lv2 = lv.push((lv[head] + 1) as nat);
    let q2 = queue(starts, states2);
    assert(q2 =~= q.push(x));
    assert forall|k: int| 0 <= k < states2.len() implies #[trigger] parent_ok(
        neighbors,
        starts,
        states2,
        parents2,
        labels2,
        lv2,
        head,
        k,
    ) by {
        if k < states.len() {
            assert(parent_ok(neighbors, starts, states, parents, labels, lv, head, k));
            let p = origin_index(parents[k], ns);
            assert(q2[p] == q[p]);
            assert(states2[k] == states[k]);
        } else {
            assert(is_move(neighbors, q[head], sym, x));
            assert(q2[head] == q[head]);
        }
    }
    assert forall|i: int, j: int| 0 <= i <= j < q2.len() implies #[trigger] lv2[i]
        <= #[trigger] lv2[j] by {
        if j == q.len() {
            assert(lv2[i] <= lv[head] + 1);
        }
    }
    assert forall|k: int| 0 <= k < states2.len() implies !starts_view(
        starts,
        #[trigger] states2[k]@,
    ) by {
        if k < states.len() {
            assert(states2[k] == states[k]);
        }
    }
    assert forall|k1: int, k2: int| 0 <= k1 < k2 < states2.len() implies #[trigger] states2[k1]@
        != #[trigger] states2[k2]@ by {
        if k2 == states.len() {
            if states[k1]@ == x@ {
                assert(starts_view(states, x@));
            }
        } else {
            assert(states2[k1] == states[k1] && states2[k2] == states[k2]);
        }
    }
    assert forall|i: int| 0 <= i < ns implies #[trigger] lv2[i] == 0 by {
        assert(lv[i] == 0);
    }
}

/// Performs a breadth-first search and returns the shortest path.
///
/// Parameters:
/// - `starts`: list of starting states
/// - `neighbors`: function that takes a state and returns the list
///   of possible next states, along with a symbol to use in the output
/// - `is_goal`: function that determines whether a state is a goal state
///
/// States are told apart by `==`, which must compare their views; the
/// search needs a goal to be reachable (it panics otherwise), and calls the
/// closures only on states within the distance of such a goal. When a
/// starting state is a goal the path is empty. Otherwise the returned symbols
/// label a route from a starting state to an accepted state that meets no
/// starting state after its first, and no route between views that the
/// closures always allow, from a starting view to an accepted view, is
/// shorter.
pub fn bfs<T: PartialEq + View, SYMBOL>(
    starts: &[T],
    neighbors: impl Fn(&T) -> Vec<(SYMBOL, T)>,
    is_goal: impl Fn(&T) -> bool,
) -> (solution: Vec<SYMBOL>)
    requires
        obeys_view_eq::<T>(),
        exists|syms: Seq<SYMBOL>, views: Seq<T::V>|
            is_view_goal_route(neighbors, is_goal, starts@, syms, views) && callable_within(
                starts@,
                neighbors,
                is_goal,
                syms.len() as int,
            ),
    ensures
        start_accepted(is_goal, starts@) ==> solution@.len() == 0,
        exists|states: Seq<T>| is_goal_route(neighbors, is_goal, starts@, solution@, states),
        forall|syms: Seq<SYMBOL>, views: Seq<T::V>|
            is_view_goal_route(neighbors, is_goal, starts@, syms, views) ==> solution@.len()
                <= syms.len(),
{
    let ghost (wsyms, wroute) = choose|syms: Seq<SYMBOL>, views: Seq<T::V>|
        is_view_goal_route(neighbors, is_goal, starts@, syms, views) && callable_within(
            starts@,
            neighbors,
            is_goal,
            syms.len() as int,
        );
    let ghost dmax = wsyms.len() as int;
    let ns = starts.len();
    // a starting state that is a goal ends the search at once
    let mut k: usize = 0;
    while k < ns
        invariant
            ns == starts@.len(),
            k <= ns,
            callable_within(starts@, neighbors, is_goal, dmax),
            forall|k2: int| 0 <= k2 < k ==> call_ensures(is_goal, (&#[trigger] starts@[k2],), false),
        decreases ns - k,
    {
        assert(call_requires(is_goal, (&starts@[k as int],)));
        if is_goal(&starts[k]) {
            let solution: Vec<SYMBOL> = Vec::new();
            proof {
                let route = seq![starts@[k as int]];
                assert(is_route(neighbors, starts@, solution@, route));
                assert(accepts(is_goal, route.last()));
                assert(is_goal_route(neighbors, is_goal, starts@, solution@, route));
            }
            return solution;
        }
        k = k + 1;
    }
    assert(starts_rejected(is_goal, starts@));
    let mut states: Vec<T> = Vec::new();
    let mut parents: Vec<Origin> = Vec::new();
    let mut labels: Vec<SYMBOL> = Vec::new();
    let ghost mut lv: Seq<nat> = Seq::new(ns as nat, |i: int| 0nat);
    let ghost mut head: int = 0;
    let ghost mut lend: int = ns as int;
    let mut in_starts = true;
    let mut idx: usize = 0;
    proof {
        assert(starts_view(starts@, wroute[0]));
        assert(queue(starts@, states@) =~= starts@);
        assert(closed_upto(neighbors, starts@, states@, lv, head));
        if dmax == 0 {
            let k0 = choose|k: int| 0 <= k < starts@.len() && #[trigger] starts@[k]@ == wroute[0];
            assert(call_ensures(is_goal, (&starts@[k0],), false));
            assert(false);
        }
    }
    let finish: usize;
    loop
        invariant_except_break
            obeys_view_eq::<T>(),
            callable_within(starts@, neighbors, is_goal, dmax),
            starts_rejected(is_goal, starts@),
            is_view_goal_route(neighbors, is_goal, starts@, wsyms, wroute),
            dmax == wsyms.len(),
            ns == starts@.len(),
            tree_ok(neighbors, starts@, states@, parents@, labels@, lv, head),
            shallow(lv, head),
            closed_upto(neighbors, starts@, states@, lv, head),
            none_accepted(is_goal, states@, states@.len() as int),
            head == if in_starts { idx as int } else { ns + idx },
            in_starts ==> idx < ns,
            !in_starts ==> idx < states@.len(),
            lv[head] < dmax,
            head < lend <= lv.len(),
            forall|j: int| 0 <= j < lend ==> lv[j] <= lv[head],
            forall|j: int| lend <= j < lv.len() ==> lv[j] > lv[head],
        ensures
            starts_rejected(is_goal, starts@),
            tree_ok(neighbors, starts@, states@, parents@, labels@, lv, head),
            shallow(lv, head),
            closed_upto(neighbors, starts@, states@, lv, head),
            ns == starts@.len(),
            finish + 1 == states@.len(),
            none_accepted(is_goal, states@, finish as int),
            accepts(is_goal, states@[finish as int]),
            lv[ns + finish] == lv[head] + 1,
        decreases dmax - lv[head], lend - head,
    {
        proof {
            if in_starts {
                assert(queue(starts@, states@)[head] == starts@[idx as int]);
            } else {
                assert(queue(starts@, states@)[head] == states@[idx as int]);
            }
            // the state at `head` is reached by a route of `lv[head] < dmax` moves
            let qh = queue(starts@, states@)[head];
            if in_starts {
                let route = seq![starts@[idx as int]];
                assert(is_route(neighbors, starts@, Seq::<SYMBOL>::empty(), route));
                assert(route.last() == qh);
            } else {
                lemma_trail(neighbors, starts@, states@, parents@, labels@, lv, head, idx as int);
                let route = trail_states(starts@, states@, parents@, idx as int);
                let tl = trail_labels(parents@, labels@, idx as int);
                assert(is_route(neighbors, starts@, tl, route));
                assert(route.last() == qh);
            }
            assert(call_requires(neighbors, (&qh,)));
        }
        let out = if in_starts {
            neighbors(&starts[idx])
        } else {
            neighbors(&states[idx])
        };
        let origin = if in_starts {
            Origin::Start(idx)
        } else {
            Origin::Found(idx)
        };
        let ghost out_orig = out;
        let ghost qhead = queue(starts@, states@)[head];
        let ghost old_len = queue(starts@, states@).len();
        let ghost lv_head0 = lv[head];
        let mut out = out;
        let ghost out0 = out@;
        let ghost mut m: int = 0;
        let mut found_goal = false;
        while !found_goal && out.len() > 0
            invariant
                obeys_view_eq::<T>(),
                callable_within(starts@, neighbors, is_goal, dmax),
                starts_rejected(is_goal, starts@),
                forall|o: Vec<(SYMBOL, T)>, i: int|
                    #![trigger call_ensures(neighbors, (&qhead,), o), o@[i]]
                    call_ensures(neighbors, (&qhead,), o) && 0 <= i < o@.len() ==> call_requires(
                        is_goal,
                        (&o@[i].1,),
                    ),
                ns == starts@.len(),
                call_ensures(neighbors, (&qhead,), out_orig),
                out_orig@ == out0,
                out@ == out0.subrange(m, out0.len() as int),
                0 <= m <= out0.len(),
                old_len <= queue(starts@, states@).len(),
                qhead == queue(starts@, states@)[head],
                origin_index(origin, ns as int) == head,
                origin is Start ==> head < ns,
                in_starts ==> idx < ns,
                !in_starts ==> idx < states@.len(),
                head == if in_starts { idx as int } else { ns + idx },
                tree_ok(neighbors, starts@, states@, parents@, labels@, lv, head),
                shallow(lv, head),
                closed_upto(neighbors, starts@, states@, lv, head),
                none_accepted(
                    is_goal,
                    states@,
                    states@.len() - if found_goal {
                        1int
                    } else {
                        0int
                    },
                ),
                found_goal ==> states@.len() > 0 && accepts(is_goal, states@.last()) && lv.last()
                    == lv[head] + 1,
                forall|m2: int|
                    0 <= m2 < m ==> in_queue_within(
                        queue(starts@, states@),
                        lv,
                        #[trigger] out0[m2].1@,
                        lv[head] + 1 as int,
                    ),
                head < lend <= old_len,
                lv[head] == lv_head0,
                forall|j: int| 0 <= j < lend ==> lv[j] <= lv[head],
                forall|j: int| lend <= j < lv.len() ==> lv[j] > lv[head],
            decreases out@.len(),
        {
            let (sym, x) = out.remove(0);
            proof {
                assert(out0[m] == (sym, x));
                assert(out_orig@.contains((sym, x)));
            }
            let known = contains_state(states.as_slice(), &x) || contains_state(starts, &x);
            if known {
                proof {
                    let q = queue(starts@, states@);
                    if starts_view(states@, x@) {
                        let k = choose|k: int| 0 <= k < states@.len() && #[trigger] states@[k]@ == x@;
                        assert(q[ns + k] == states@[k]);
                        assert(q[ns + k]@ == x@);
                    } else {
                        let i = choose|i: int| 0 <= i < starts@.len() && #[trigger] starts@[i]@ == x@;
                        assert(q[i] == starts@[i]);
                        assert(q[i]@ == x@);
                        assert(lv[i] == 0);
                    }
                    m = m + 1;
                }
            } else {
                proof {
                    assert(out_orig@[m].1 == x);
                    assert(call_requires(is_goal, (&out_orig@[m].1,)));
                }
                let g = is_goal(&x);
                let ghost old_states = states@;
                let ghost old_lv = lv;
                let ghost old_q = queue(starts@, states@);
                proof {
                    lemma_push_node(
                        neighbors,
                        starts@,
                        states@,
                        parents@,
                        labels@,
                        lv,
                        head,
                        origin,
                        sym,
                        x,
                        out_orig,
                    );
                }
                states.push(x);
                parents.push(origin);
                labels.push(sym);
                proof {
                    lv = lv.push((lv[head] + 1) as nat);
                    let q2 = queue(starts@, states@);
                    assert(q2[old_q.len() as int] == x);
                    assert forall|m2: int| 0 <= m2 < m + 1 implies in_queue_within(
                        q2,
                        lv,
                        #[trigger] out0[m2].1@,
                        lv[head] + 1 as int,
                    ) by {
                        if m2 < m {
                            lemma_in_queue_grow(
                                old_q,
                                old_lv,
                                q2,
                                lv,
                                out0[m2].1@,
                                lv[head] + 1 as int,
                            );
                        } else {
                            assert(q2[old_q.len() as int]@ == out0[m2].1@);
                        }
                    }
                    assert forall|i: int, sym2: SYMBOL, y: T::V|
                        0 <= i < head && #[trigger] leads(
                            neighbors,
                            q2[i]@,
                            sym2,
                            y,
                        ) implies in_queue_within(q2, lv, y, lv[i] + 1 as int) by {
                        assert(q2[i] == old_q[i]);
                        assert(in_queue_within(old_q, old_lv, y, old_lv[i] + 1 as int));
                        lemma_in_queue_grow(old_q, old_lv, q2, lv, y, lv[i] + 1 as int);
                    }
                    assert forall|k: int| 0 <= k < old_states.len() implies call_ensures(
                        is_goal,
                        (&#[trigger] states@[k],),
                        false,
                    ) by {
                        assert(states@[k] == old_states[k]);
                    }
                    m = m + 1;
                }
                if g {
                    found_goal = true;
                }
            }
        }
        if found_goal {
            finish = states.len() - 1;
            break;
        }
        proof {
            // Every move out of the current position is now queued.
            let q = queue(starts@, states@);
            assert(m == out0.len());
            assert forall|i: int, sym2: SYMBOL, y: T::V|
                0 <= i < head + 1 && #[trigger] leads(neighbors, q[i]@, sym2, y) implies in_queue_within(
                q,
                lv,
                y,
                lv[i] + 1 as int,
            ) by {
                if i == head {
                    assert(call_ensures(neighbors, (&qhead,), out_orig));
                    let x = choose|x: T| #[trigger] out_orig@.contains((sym2, x)) && x@ == y;
                    let m2 = choose|m2: int| 0 <= m2 < out0.len() && out0[m2] == (sym2, x);
                    assert(out0[m2].1@ == y);
                }
            }
        }
        if in_starts {
            if idx + 1 < ns {
                idx = idx + 1;
            } else {
                in_starts = false;
                idx = 0;
            }
        } else {
            assert(idx < states.len());
            idx = idx + 1;
        }
        proof {
            let old_head = head;
            assert forall|k: int| 0 <= k < states@.len() implies #[trigger] parent_ok(
                neighbors,
                starts@,
                states@,
                parents@,
                labels@,
                lv,
                old_head + 1,
                k,
            ) by {
                assert(parent_ok(neighbors, starts@, states@, parents@, labels@, lv, old_head, k));
            }
            head = head + 1;
            let q = queue(starts@, states@);
            // The queue is not exhausted and the level stays below the witness length.
            if head >= q.len() || lv[head] >= dmax {
                assert forall|i: int| 0 <= i < lv.len() && lv[i] < wsyms.len() implies i < head by {
                    if i >= head {
                        assert(lv[head] <= lv[i]);
                    }
                }
                let j = lemma_goal_queued(
                    neighbors,
                    is_goal,
                    starts@,
                    states@,
                    parents@,
                    labels@,
                    lv,
                    head,
                    wsyms,
                    wroute,
                );
                assert(call_ensures(is_goal, (&states@[j],), false));
                assert(view_accepted(is_goal, wroute.last()));
                assert(false);
            }
            assert(lv[old_head] <= lv[head]);
            if head == lend {
                assert(lv[head] > lv[old_head]);
                assert(lv[head] <= lv[old_head] + 1);
                lend = q.len() as int;
            } else {
                assert(lv[head] <= lv[old_head]);
            }
            assert forall|j: int| 0 <= j < lv.len() implies #[trigger] lv[j] <= lv[head] + 1 by {
                assert(lv[j] <= lv[old_head] + 1);
            }
        }
    }
    proof {
        lemma_trail(
            neighbors,
            starts@,
            states@,
            parents@,
            labels@,
            lv,
            head,
            finish as int,
        );
        let route = trail_states(starts@, states@, parents@, finish as int);
        let tl = trail_labels(parents@, labels@, finish as int);
        if starts@.contains(route.last()) {
            let i = choose|i: int| 0 <= i < starts@.len() && starts@[i] == route.last();
            assert(starts@[i]@ == states@[finish as int]@);
            assert(starts_view(starts@, states@[finish as int]@));
        }
        assert(is_goal_route(neighbors, is_goal, starts@, tl, route));
        // No goal route is shorter.
        assert forall|syms: Seq<SYMBOL>, route2: Seq<T::V>|
            is_view_goal_route(neighbors, is_goal, starts@, syms, route2) implies tl.len()
            <= syms.len() by {
            if syms.len() < tl.len() {
                assert forall|i: int| 0 <= i < lv.len() && lv[i] < syms.len() implies i < head by {
                    if i >= head {
                        assert(lv[head] <= lv[i]);
                    }
                }
                let j = lemma_goal_queued(
                    neighbors,
                    is_goal,
                    starts@,
                    states@,
                    parents@,
                    labels@,
                    lv,
                    head,
                    syms,
                    route2,
                );
                if j == finish {
                    assert(false);
                } else {
                    assert(call_ensures(is_goal, (&states@[j],), false));
                    assert(view_accepted(is_goal, route2.last()));
                }
            }
        }
    }
    proof {
        assert forall|k: int| 0 <= k < parents@.len() implies (#[trigger] parents@[k] matches Origin::Found(
            j,
        ) ==> j < k) by {
            assert(parent_ok(neighbors, starts@, states@, parents@, labels@, lv, head, k));
        }
    }
    let ghost all_parents = parents@;
    let ghost all_labels = labels@;
    let ghost target = trail_labels(all_parents, all_labels, finish as int);
    let mut solution: Vec<SYMBOL> = Vec::new();
    let mut cur = finish;
    loop
        invariant_except_break
            starts_rejected(is_goal, starts@),
            labels@ == all_labels.take(labels@.len() as int),
            parents@ == all_parents.take(parents@.len() as int),
            labels@.len() == parents@.len(),
            parents@.len() <= all_parents.len(),
            all_labels.len() == all_parents.len(),
            cur < parents@.len(),
            target == trail_labels(all_parents, all_labels, cur as int) + solution@,
            forall|k: int|
                0 <= k < all_parents.len() ==> (#[trigger] all_parents[k] matches Origin::Found(j)
                    ==> j < k),
        ensures
            starts_rejected(is_goal, starts@),
            target == solution@,
        decreases parents@.len(),
    {
        while parents.len() > cur + 1
            invariant
                labels@ == all_labels.take(labels@.len() as int),
                parents@ == all_parents.take(parents@.len() as int),
                labels@.len() == parents@.len(),
                parents@.len() <= all_parents.len(),
                all_labels.len() == all_parents.len(),
                cur < parents@.len(),
            decreases parents@.len(),
        {
            labels.pop();
            parents.pop();
        }
        let sym = labels.pop().unwrap();
        let origin = parents.pop().unwrap();
        proof {
            assert(sym == all_labels[cur as int]);
            assert(origin == all_parents[cur as int]);
        }
        solution.insert(0, sym);
        match origin {
            Origin::Start(_) => {
                assert(target == solution@);
                break;
            },
            Origin::Found(j) => {
                proof {
                    assert(j < cur);
                    assert(trail_labels(all_parents, all_labels, cur as int) == trail_labels(
                        all_parents,
                        all_labels,
                        j as int,
                    ).push(sym));
                    assert(target == trail_labels(all_parents, all_labels, j as int) + solution@);
                }
                cur = j;
            },
        }
    }
    proof {
        // every starting state was tested and rejected
        if start_accepted(is_goal, starts@) {
            let k = choose|k: int|
                0 <= k < starts@.len() && #[trigger] always_accepts(is_goal, starts@[k]);
            assert(call_ensures(is_goal, (&starts@[k],), false));
        }
    }
    solution
}

} // verus!
