use zoldath::util::bfs;

#[test]
fn test_bfs_sample() {
    let result = bfs(&[1], |x| vec![("*2", x * 2), ("+1", x + 1)], |x| *x == 100);
    assert_eq!(result.len(), 8);
    // first symbol can be anything
    assert_eq!(&result[1..], &["+1", "*2", "*2", "*2", "+1", "*2", "*2"]);
}

#[test]
fn bfs_prefers_the_first_listed_move_among_equal_routes() {
    // From 1, both "*2" and "+1" reach 2; the first listed wins.
    let result = bfs(&[1], |x| vec![("*2", x * 2), ("+1", x + 1)], |x| *x == 2);
    assert_eq!(result, vec!["*2"]);
}

#[test]
fn bfs_gives_an_empty_route_when_a_start_is_a_goal() {
    // 0 is a start and an even number: no move is needed.
    let result = bfs(&[0], |x: &i32| vec![("+1", x + 1)], |x| *x % 2 == 0);
    assert_eq!(result, Vec::<&str>::new());
}

#[test]
fn bfs_checks_every_start_before_moving() {
    // The second start is accepted, so the route is empty.
    let result = bfs(&[1, 4], |x: &i32| vec![("+1", x + 1)], |x| *x == 4);
    assert_eq!(result, Vec::<&str>::new());
}

#[test]
fn bfs_never_routes_back_through_a_start() {
    // From 0 the moves lead to 1, then back to 0 or on to 2; the route to 2
    // must not pass through the start 0 again.
    let result = bfs(&[0], |x: &i32| vec![("back", 0), ("+1", x + 1)], |x| *x == 2);
    assert_eq!(result, vec!["+1", "+1"]);
}

#[test]
fn bfs_uses_the_nearest_of_several_starts() {
    let result = bfs(&[1, 9], |x| vec![("+1", x + 1)], |x| *x == 10);
    assert_eq!(result, vec!["+1"]);
}

#[test]
fn bfs_finds_a_shortest_route() {
    // 5 can be reached from 0 by five "+1" or by "+3" then two "+1".
    let result = bfs(&[0], |x| vec![("+1", x + 1), ("+3", x + 3)], |x| *x == 5);
    assert_eq!(result.len(), 3);
}
