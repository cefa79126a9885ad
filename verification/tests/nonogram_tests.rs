use zoldath::nonogram::{
    distance_matrix, extra_frames, grid_distance, route_blanks, route_distance, solve_sudoku,
    tas_distance, tour_path,
};

fn rows(text: [[u32; 9]; 9]) -> Vec<Vec<u32>> {
    text.iter().map(|r| r.to_vec()).collect()
}

#[test]
fn solves_a_classic_puzzle() {
    let mut board = rows([
        [5, 3, 0, 0, 7, 0, 0, 0, 0],
        [6, 0, 0, 1, 9, 5, 0, 0, 0],
        [0, 9, 8, 0, 0, 0, 0, 6, 0],
        [8, 0, 0, 0, 6, 0, 0, 0, 3],
        [4, 0, 0, 8, 0, 3, 0, 0, 1],
        [7, 0, 0, 0, 2, 0, 0, 0, 6],
        [0, 6, 0, 0, 0, 0, 2, 8, 0],
        [0, 0, 0, 4, 1, 9, 0, 0, 5],
        [0, 0, 0, 0, 8, 0, 0, 7, 9],
    ]);
    assert!(solve_sudoku(&mut board, 0, 0));
    let expected = rows([
        [5, 3, 4, 6, 7, 8, 9, 1, 2],
        [6, 7, 2, 1, 9, 5, 3, 4, 8],
        [1, 9, 8, 3, 4, 2, 5, 6, 7],
        [8, 5, 9, 7, 6, 1, 4, 2, 3],
        [4, 2, 6, 8, 5, 3, 7, 9, 1],
        [7, 1, 3, 9, 2, 4, 8, 5, 6],
        [9, 6, 1, 5, 3, 7, 2, 8, 4],
        [2, 8, 7, 4, 1, 9, 6, 3, 5],
        [3, 4, 5, 2, 8, 6, 1, 7, 9],
    ]);
    assert_eq!(board, expected);
}

#[test]
fn unsolvable_board_is_left_unchanged() {
    let mut grid = [[0u32; 9]; 9];
    grid[0] = [1, 2, 0, 3, 4, 5, 6, 7, 8];
    grid[1][2] = 9;
    let mut board = rows(grid);
    let before = board.clone();
    assert!(!solve_sudoku(&mut board, 0, 0));
    assert_eq!(board, before);
}

#[test]
fn full_board_is_solved_as_is() {
    let mut board = rows([[1; 9]; 9]);
    assert!(solve_sudoku(&mut board, 0, 0));
    assert_eq!(board, rows([[1; 9]; 9]));
    let mut board = rows([[0; 9]; 9]);
    assert!(solve_sudoku(&mut board, 9, 0));
    assert_eq!(board, rows([[0; 9]; 9]));
}

#[test]
fn cursor_distance_examples() {
    assert_eq!(grid_distance(9, (0, 0), (0, 0)), 0);
    assert_eq!(grid_distance(9, (0, 0), (0, 1)), 1);
    assert_eq!(grid_distance(9, (0, 0), (1, 1)), 2);
    assert_eq!(grid_distance(9, (0, 0), (8, 0)), 1);
    assert_eq!(grid_distance(9, (0, 0), (4, 4)), 8);
    assert_eq!(grid_distance(9, (0, 0), (3, 1)), 5);
    assert_eq!(grid_distance(3, (0, 0), (2, 2)), 2);
}

#[test]
fn cursor_distance_is_symmetric() {
    for a in 0..9 {
        for b in 0..9 {
            assert_eq!(grid_distance(9, (a, b), (b, 8 - a)), grid_distance(9, (b, 8 - a), (a, b)));
        }
    }
}

fn answer() -> Vec<Vec<u32>> {
    let mut grid = [[0u32; 9]; 9];
    grid[0][1] = 5;
    grid[4][4] = 9;
    rows(grid)
}

#[test]
fn route_nodes_follow_reading_order() {
    assert_eq!(route_blanks(&answer()), vec![(99, 99), (0, 1), (4, 4)]);
}

#[test]
fn frames_between_nodes() {
    let answer = answer();
    let blanks = route_blanks(&answer);
    // same digit still costs a frame
    assert_eq!(tas_distance(&answer, &blanks, 0, 1), 2);
    assert_eq!(tas_distance(&answer, &blanks, 0, 2), 10);
    assert_eq!(tas_distance(&answer, &blanks, 1, 2), 9);
    assert_eq!(tas_distance(&answer, &blanks, 2, 1), 9);
}

#[test]
fn matrix_of_frames() {
    let answer = answer();
    let blanks = route_blanks(&answer);
    let matrix = distance_matrix(&answer, &blanks);
    assert_eq!(matrix, vec![vec![0, 2, 10], vec![0, 0, 9], vec![0, 9, 0]]);
}

#[test]
fn route_totals_and_paths() {
    let answer = answer();
    let blanks = route_blanks(&answer);
    assert_eq!(route_distance(&answer, &blanks, &[0, 1, 2]), 11);
    assert_eq!(route_distance(&answer, &blanks, &[0]), 0);
    assert_eq!(extra_frames(blanks.len()), 5);
    assert_eq!(tour_path(&blanks, &[0, 2, 1]), vec![40, 1]);
}

#[test]
fn empty_board_gets_the_first_grid_in_reading_order() {
    let mut board = rows([[0; 9]; 9]);
    assert!(solve_sudoku(&mut board, 0, 0));
    let expected = rows([
        [1, 2, 3, 4, 5, 6, 7, 8, 9],
        [4, 5, 6, 7, 8, 9, 1, 2, 3],
        [7, 8, 9, 1, 2, 3, 4, 5, 6],
        [2, 1, 4, 3, 6, 5, 8, 9, 7],
        [3, 6, 5, 8, 9, 7, 2, 1, 4],
        [8, 9, 7, 2, 1, 4, 3, 6, 5],
        [5, 3, 1, 6, 4, 2, 9, 7, 8],
        [6, 4, 2, 9, 7, 8, 5, 3, 1],
        [9, 7, 8, 5, 3, 1, 6, 4, 2],
    ]);
    assert_eq!(board, expected);
}
