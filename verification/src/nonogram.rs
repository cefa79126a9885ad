//! Dr. Sudoku: a backtracking solver for the problem set, and the frame
//! counts of cursor routes that fill in an answer.
//!
//! Planning the route itself (an asymmetric travelling-salesman tour over the
//! cells to fill) is not part of this library, as no tour solver is
//! available to it. What surrounds such a solver is here: the route nodes of
//! an answer (`route_blanks`), the matrix of frame counts between them
//! (`distance_matrix`), the turning of a tour into a route that starts at the
//! start node (`tour_path`), and the frame count of a given route
//! (`route_distance`, `extra_frames`).
use vstd::prelude::*;

verus! {

/// The digits of a board, row by row.
pub open spec fn grid(board: Seq<Vec<u32>>) -> Seq<Seq<u32>> {
    board.map_values(|row: Vec<u32>| row@)
}

/// Whether `(r, c)` lies on the 9x9 playing field.
pub open spec fn on_field(r: int, c: int) -> bool {
    0 <= r < 9 && 0 <= c < 9
}

/// Whether `(r1, c1)` and `(r2, c2)` are different cells that share a row,
/// a column or a 3x3 box.
pub open spec fn are_peers(r1: int, c1: int, r2: int, c2: int) -> bool {
    &&& (r1 != r2 || c1 != c2)
    &&& (r1 == r2 || c1 == c2 || (r1 / 3 == r2 / 3 && c1 / 3 == c2 / 3))
}

/// The board has a 9x9 playing field of digits `0..=9` (0 is a blank).
pub open spec fn well_shaped(g: Seq<Seq<u32>>) -> bool {
    &&& g.len() >= 9
    &&& forall|r: int| 0 <= r < 9 ==> #[trigger] g[r].len() >= 9
    &&& forall|r: int, c: int| on_field(r, c) ==> #[trigger] g[r][c] <= 9
}

/// Whether `g` fills the blanks of `orig` at reading positions `p` and after
/// with digits `1..=9`, each different from every peer, and keeps every other
/// cell as it is.
pub open spec fn solves_from(orig: Seq<Seq<u32>>, g: Seq<Seq<u32>>, p: int) -> bool {
    &&& g.len() == orig.len()
    &&& forall|r: int| 0 <= r < orig.len() ==> #[trigger] g[r].len() == orig[r].len()
    &&& forall|r: int, c: int|
        0 <= r < orig.len() && 0 <= c < orig[r].len() && !(on_field(r, c) && 9 * r + c >= p
            && orig[r][c] == 0) ==> #[trigger] g[r][c] == orig[r][c]
    &&& forall|r: int, c: int|
        on_field(r, c) && 9 * r + c >= p && orig[r][c] == 0 ==> 1 <= #[trigger] g[r][c] <= 9
    &&& forall|r: int, c: int, r2: int, c2: int|
        on_field(r, c) && on_field(r2, c2) && 9 * r + c >= p && orig[r][c] == 0 && are_peers(
            r,
            c,
            r2,
            c2,
        ) ==> #[trigger] g[r][c] != #[trigger] g[r2][c2]
}

/// Whether digit `d` does not yet appear in the row, the column or the box of `(i, j)`.
pub open spec fn fits(g: Seq<Seq<u32>>, i: int, j: int, d: u32) -> bool {
    &&& forall|c: int| 0 <= c < 9 ==> #[trigger] g[i][c] != d
    &&& forall|r: int| 0 <= r < 9 ==> #[trigger] g[r][j] != d
    &&& forall|r: int, c: int|
        i / 3 * 3 <= r < i / 3 * 3 + 3 && j / 3 * 3 <= c < j / 3 * 3 + 3 ==> #[trigger] g[r][c]
            != d
}

proof fn lemma_fits_peers(g: Seq<Seq<u32>>, i: int, j: int, d: u32, r2: int, c2: int)
    requires
        fits(g, i, j, d),
        on_field(i, j),
        on_field(r2, c2),
        are_peers(i, j, r2, c2),
    ensures
        g[r2][c2] != d,
{
    if r2 == i {
        assert(g[i][c2] != d);
    } else if c2 == j {
        assert(g[r2][j] != d);
    } else {
        assert(i / 3 * 3 <= r2 < i / 3 * 3 + 3);
        assert(j / 3 * 3 <= c2 < j / 3 * 3 + 3);
    }
}

/// A solution from position `9i + j` that writes `d` into the blank at `(i, j)`
/// is a solution from the next position of the board with `d` written there.
proof fn lemma_place(orig: Seq<Seq<u32>>, g: Seq<Seq<u32>>, i: int, j: int, d: u32)
    requires
        well_shaped(orig),
        on_field(i, j),
        orig[i][j] == 0,
        1 <= d <= 9,
        fits(orig, i, j, d),
    ensures
        solves_from(orig.update(i, orig[i].update(j, d)), g, 9 * i + j + 1) <==> solves_from(
            orig,
            g,
            9 * i + j,
        ) && g[i][j] == d,
{
    let p = 9 * i + j;
    let placed = orig.update(i, orig[i].update(j, d));
    assert forall|r: int, c: int| 0 <= r < orig.len() && 0 <= c < orig[r].len() implies #[trigger] placed[r][c]
        == (if r == i && c == j {
        d
    } else {
        orig[r][c]
    }) by {}
    if solves_from(placed, g, p + 1) {
        assert(g[i][j] == d);
        assert forall|r: int, c: int, r2: int, c2: int|
            on_field(r, c) && on_field(r2, c2) && 9 * r + c >= p && orig[r][c] == 0 && are_peers(
                r,
                c,
                r2,
                c2,
            ) implies #[trigger] g[r][c] != #[trigger] g[r2][c2] by {
            if r == i && c == j {
                if 9 * r2 + c2 >= p + 1 && orig[r2][c2] == 0 {
                    assert(are_peers(r2, c2, r, c));
                    assert(g[r2][c2] != g[r][c]);
                } else {
                    lemma_fits_peers(orig, i, j, d, r2, c2);
                    assert(g[r2][c2] == placed[r2][c2]);
                }
            } else {
                assert(placed[r][c] == 0);
            }
        }
        assert(solves_from(orig, g, p));
    }
    if solves_from(orig, g, p) && g[i][j] == d {
        assert forall|r: int, c: int|
            0 <= r < placed.len() && 0 <= c < placed[r].len() && !(on_field(r, c) && 9 * r + c
                >= p + 1 && placed[r][c] == 0) implies #[trigger] g[r][c] == placed[r][c] by {}
        assert(solves_from(placed, g, p + 1));
    }
}

/// In a solution from position `9i + j`, the digit at the blank `(i, j)` fits there.
proof fn lemma_solution_fits(orig: Seq<Seq<u32>>, g: Seq<Seq<u32>>, i: int, j: int)
    requires
        well_shaped(orig),
        on_field(i, j),
        orig[i][j] == 0,
        solves_from(orig, g, 9 * i + j),
    ensures
        1 <= g[i][j] <= 9,
        fits(orig, i, j, g[i][j]),
{
    let p = 9 * i + j;
    let d = g[i][j];
    assert forall|c: int| 0 <= c < 9 implies #[trigger] orig[i][c] != d by {
        if c != j && orig[i][c] != 0 {
            assert(are_peers(i, j, i, c));
            assert(g[i][c] != g[i][j]);
        }
    }
    assert forall|r: int| 0 <= r < 9 implies #[trigger] orig[r][j] != d by {
        if r != i && orig[r][j] != 0 {
            assert(are_peers(i, j, r, j));
            assert(g[r][j] != g[i][j]);
        }
    }
    assert forall|r: int, c: int|
        i / 3 * 3 <= r < i / 3 * 3 + 3 && j / 3 * 3 <= c < j / 3 * 3 + 3 implies #[trigger] orig[r][c]
        != d by {
        if (r != i || c != j) && orig[r][c] != 0 {
            assert(r / 3 == i / 3 && c / 3 == j / 3);
            assert(are_peers(i, j, r, c));
            assert(g[r][c] != g[i][j]);
        }
    }
}

/// Whether `g1` and `g2` hold the same digits in the field cells at reading
/// positions from `p` up to, not including, `q`.
pub open spec fn agree_between(g1: Seq<Seq<u32>>, g2: Seq<Seq<u32>>, p: int, q: int) -> bool {
    forall|r: int, c: int|
        on_field(r, c) && p <= 9 * r + c < q ==> #[trigger] g1[r][c] == #[trigger] g2[r][c]
}

/// Whether `g1` comes no later than `g2` when their field cells from reading
/// position `p` on are read in order: they agree there, or at the first cell
/// where they differ `g1` holds the smaller digit.
pub open spec fn reads_no_later(g1: Seq<Seq<u32>>, g2: Seq<Seq<u32>>, p: int) -> bool {
    ||| agree_between(g1, g2, p, 81)
    ||| exists|r: int, c: int|
        on_field(r, c) && 9 * r + c >= p && #[trigger] g1[r][c] < #[trigger] g2[r][c]
            && agree_between(g1, g2, p, 9 * r + c)
}

proof fn lemma_reads_step(g1: Seq<Seq<u32>>, g2: Seq<Seq<u32>>, i: int, j: int)
    requires
        on_field(i, j),
        g1[i][j] == g2[i][j],
        reads_no_later(g1, g2, 9 * i + j + 1),
    ensures
        reads_no_later(g1, g2, 9 * i + j),
{
    let p = 9 * i + j;
    assert forall|r: int, c: int| on_field(r, c) && 9 * r + c == p implies r == i && c == j by {}
    if agree_between(g1, g2, p + 1, 81) {
        assert forall|r: int, c: int|
            on_field(r, c) && p <= 9 * r + c < 81 implies #[trigger] g1[r][c] == #[trigger] g2[r][c] by {
            if 9 * r + c == p {
                assert(r == i && c == j);
            }
        }
    } else {
        let (r0, c0) = choose|r: int, c: int|
            on_field(r, c) && 9 * r + c >= p + 1 && #[trigger] g1[r][c] < #[trigger] g2[r][c]
                && agree_between(g1, g2, p + 1, 9 * r + c);
        assert forall|r: int, c: int|
            on_field(r, c) && p <= 9 * r + c < 9 * r0 + c0 implies #[trigger] g1[r][c]
            == #[trigger] g2[r][c] by {
            if 9 * r + c == p {
                assert(r == i && c == j);
            }
        }
        assert(agree_between(g1, g2, p, 9 * r0 + c0));
    }
}

proof fn lemma_reads_first(g1: Seq<Seq<u32>>, g2: Seq<Seq<u32>>, i: int, j: int)
    requires
        on_field(i, j),
        g1[i][j] < g2[i][j],
    ensures
        reads_no_later(g1, g2, 9 * i + j),
{
    assert(agree_between(g1, g2, 9 * i + j, 9 * i + j));
}

/// Solutions from position `p` and from `p + 1` are the same when the cell at `p` is filled.
proof fn lemma_skip_filled(orig: Seq<Seq<u32>>, g: Seq<Seq<u32>>, i: int, j: int)
    requires
        well_shaped(orig),
        on_field(i, j),
        orig[i][j] != 0,
    ensures
        solves_from(orig, g, 9 * i + j + 1) <==> solves_from(orig, g, 9 * i + j),
{
}


/// Which digits fit at `(i, j)`: entry `d` tells whether `d` appears nowhere
/// in the row, column or box of `(i, j)` (entry 0 is always false for a blank).
fn candidates(board: &[Vec<u32>], i: usize, j: usize) -> (is_candidate: Vec<bool>)
    requires
        well_shaped(grid(board@)),
        on_field(i as int, j as int),
        grid(board@)[i as int][j as int] == 0,
    ensures
        is_candidate@.len() == 10,
        forall|d: int| 1 <= d <= 9 ==> #[trigger] is_candidate@[d] == fits(grid(board@), i as int, j as int, d as u32),
{
    let ghost g = grid(board@);
    assert forall|r: int| 0 <= r < board@.len() implies #[trigger] g[r] == board@[r]@ by {}
    let mut is_candidate = vec![true; 10];
    // row
    let mut nj: usize = 0;
    while nj < 9
        invariant
            nj <= 9,
            is_candidate@.len() == 10,
            g == grid(board@),
            well_shaped(g),
            i < 9,
            forall|r: int| 0 <= r < board@.len() ==> #[trigger] g[r] == board@[r]@,
            forall|d: int| 0 <= d < 10 ==> #[trigger] is_candidate@[d] == (forall|c: int| 0 <= c < nj ==> #[trigger] g[i as int][c] != d),
        decreases 9 - nj,
    {
        assert(g[i as int].len() >= 9 && g[i as int] == board@[i as int]@);
        let v = board[i][nj];
        assert(v == g[i as int][nj as int]);
        is_candidate.set(v as usize, false);
        nj = nj + 1;
    }
    // col
    let mut ni: usize = 0;
    while ni < 9
        invariant
            ni <= 9,
            is_candidate@.len() == 10,
            g == grid(board@),
            well_shaped(g),
            i < 9,
            j < 9,
            forall|r: int| 0 <= r < board@.len() ==> #[trigger] g[r] == board@[r]@,
            forall|d: int| 0 <= d < 10 ==> #[trigger] is_candidate@[d] == ((forall|c: int| 0 <= c < 9 ==> #[trigger] g[i as int][c] != d)
                && (forall|r: int| 0 <= r < ni ==> #[trigger] g[r][j as int] != d)),
        decreases 9 - ni,
    {
        assert(g[ni as int].len() >= 9 && g[ni as int] == board@[ni as int]@);
        let v = board[ni][j];
        assert(v == g[ni as int][j as int]);
        is_candidate.set(v as usize, false);
        ni = ni + 1;
    }
    // subgrid
    let gi = i / 3 * 3;
    let gj = j / 3 * 3;
    let mut ni: usize = gi;
    while ni < gi + 3
        invariant
            gi <= ni <= gi + 3,
            gi == i / 3 * 3,
            gj == j / 3 * 3,
            is_candidate@.len() == 10,
            g == grid(board@),
            well_shaped(g),
            i < 9,
            j < 9,
            forall|r: int| 0 <= r < board@.len() ==> #[trigger] g[r] == board@[r]@,
            forall|d: int| 0 <= d < 10 ==> #[trigger] is_candidate@[d] == ((forall|c: int| 0 <= c < 9 ==> #[trigger] g[i as int][c] != d)
                && (forall|r: int| 0 <= r < 9 ==> #[trigger] g[r][j as int] != d)
                && (forall|r: int, c: int| gi <= r < ni && gj <= c < gj + 3 ==> #[trigger] g[r][c] != d)),
        decreases gi + 3 - ni,
    {
        let mut nj: usize = gj;
        while nj < gj + 3
            invariant
                gi <= ni < gi + 3,
                gj <= nj <= gj + 3,
                gi == i / 3 * 3,
                gj == j / 3 * 3,
                is_candidate@.len() == 10,
                g == grid(board@),
                well_shaped(g),
                i < 9,
                j < 9,
                forall|r: int| 0 <= r < board@.len() ==> #[trigger] g[r] == board@[r]@,
                forall|d: int| 0 <= d < 10 ==> #[trigger] is_candidate@[d] == ((forall|c: int| 0 <= c < 9 ==> #[trigger] g[i as int][c] != d)
                    && (forall|r: int| 0 <= r < 9 ==> #[trigger] g[r][j as int] != d)
                    && (forall|r: int, c: int| gi <= r < ni && gj <= c < gj + 3 ==> #[trigger] g[r][c] != d)
                    && (forall|c: int| gj <= c < nj ==> #[trigger] g[ni as int][c] != d)),
            decreases gj + 3 - nj,
        {
            assert(g[ni as int].len() >= 9 && g[ni as int] == board@[ni as int]@);
            let v = board[ni][nj];
            assert(v == g[ni as int][nj as int]);
            is_candidate.set(v as usize, false);
            nj = nj + 1;
        }
        ni = ni + 1;
    }
    is_candidate
}


/// Solves the given Sudoku problem by backtracking,
/// starting from the cell at coordinate (i, j).
///
/// Returns whether the blanks at and after `(i, j)` (in reading order) can be
/// filled so that each filled digit differs from all of its peers; if so the
/// board holds the first such filling when the cells are read in order (at
/// the first cell where two fillings differ, it has the smaller digit), and
/// otherwise it is left as it was.
pub fn solve_sudoku(board: &mut [Vec<u32>], i: usize, j: usize) -> (solved: bool)
    requires
        well_shaped(grid(old(board)@)),
        (i < 9 && j <= 9) || (i == 9 && j < 9),
    ensures
        solved == exists|g: Seq<Seq<u32>>| #[trigger] solves_from(grid(old(board)@), g, 9 * i + j),
        solved ==> solves_from(grid(old(board)@), grid(final(board)@), 9 * i + j),
        solved ==> forall|g: Seq<Seq<u32>>|
            #[trigger] solves_from(grid(old(board)@), g, 9 * i + j) ==> reads_no_later(
                grid(final(board)@),
                g,
                9 * i + j,
            ),
        !solved ==> grid(final(board)@) == grid(old(board)@),
        final(board)@.len() == old(board)@.len(),
    decreases 81 - (9 * i + j), j,
{
    let ghost g0 = grid(board@);
    let ghost p = 9 * i + j;
    // wrap & win
    if j == 9 {
        return solve_sudoku(board, i + 1, 0);
    }
    if i == 9 {
        assert(solves_from(g0, g0, p));
        assert forall|g: Seq<Seq<u32>>| solves_from(g0, g, p) implies reads_no_later(g0, g, p) by {
            assert(agree_between(g0, g, p, 81));
        }
        return true;
    }
    assert(g0[i as int].len() >= 9);
    assert(g0[i as int] == board@[i as int]@);
    // already filled
    if board[i][j] != 0 {
        let solved = solve_sudoku(board, i, j + 1);
        proof {
            assert forall|g: Seq<Seq<u32>>| solves_from(g0, g, p + 1) <==> #[trigger] solves_from(
                g0,
                g,
                p,
            ) by {
                lemma_skip_filled(g0, g, i as int, j as int);
            }
            if solved {
                assert(solves_from(g0, grid(board@), p + 1));
                assert(solves_from(g0, grid(board@), p));
                assert forall|g: Seq<Seq<u32>>| #[trigger] solves_from(g0, g, p) implies reads_no_later(
                    grid(board@),
                    g,
                    p,
                ) by {
                    assert(solves_from(g0, g, p + 1));
                    assert(reads_no_later(grid(board@), g, p + 1));
                    assert(g[i as int][j as int] == g0[i as int][j as int]);
                    assert(grid(board@)[i as int][j as int] == g0[i as int][j as int]);
                    lemma_reads_step(grid(board@), g, i as int, j as int);
                }
            } else {
                assert forall|g: Seq<Seq<u32>>| !solves_from(g0, g, p) by {
                    assert(!solves_from(g0, g, p + 1));
                }
            }
        }
        return solved;
    }
    // brute force
    let is_candidate = candidates(board, i, j);
    let mut d: usize = 1;
    while d <= 9
        invariant
            1 <= d <= 10,
            i < 9,
            j < 9,
            p == 9 * i + j,
            g0 == grid(board@),
            g0 == grid(old(board)@),
            well_shaped(g0),
            g0[i as int][j as int] == 0,
            is_candidate@.len() == 10,
            forall|e: int|
                1 <= e <= 9 ==> #[trigger] is_candidate@[e] == fits(g0, i as int, j as int, e as u32),
            forall|e: int, g: Seq<Seq<u32>>|
                1 <= e < d && fits(g0, i as int, j as int, e as u32) ==> !#[trigger] solves_from(
                    g0.update(i as int, g0[i as int].update(j as int, e as u32)),
                    g,
                    p + 1,
                ),
        decreases 10 - d,
    {
        if is_candidate[d] {
            let ghost placed = g0.update(i as int, g0[i as int].update(j as int, d as u32));
            board[i][j] = d as u32;
            proof {
                assert(grid(board@) =~= placed);
            }
            if solve_sudoku(board, i, j + 1) {
                proof {
                    let res = grid(board@);
                    lemma_place(g0, res, i as int, j as int, d as u32);
                    assert(solves_from(placed, res, p + 1));
                    assert(solves_from(g0, res, p));
                    assert(res[i as int][j as int] == d as u32);
                    assert forall|g: Seq<Seq<u32>>| #[trigger] solves_from(g0, g, p) implies reads_no_later(
                        res,
                        g,
                        p,
                    ) by {
                        lemma_solution_fits(g0, g, i as int, j as int);
                        let e = g[i as int][j as int];
                        lemma_place(g0, g, i as int, j as int, e);
                        if e < d as u32 {
                            let ei: int = e as int;
                            assert(ei as u32 == e);
                            assert(solves_from(g0.update(i as int, g0[i as int].update(j as int, ei as u32)), g, p + 1));
                            assert(false);
                        } else if e == d as u32 {
                            lemma_place(g0, g, i as int, j as int, d as u32);
                            assert(solves_from(placed, g, p + 1));
                            assert(reads_no_later(res, g, p + 1));
                            lemma_reads_step(res, g, i as int, j as int);
                        } else {
                            lemma_reads_first(res, g, i as int, j as int);
                        }
                    }
                }
                return true;
            }
            proof {
                assert(grid(board@) == placed);
                assert(board@[i as int]@ == placed[i as int]);
            }
            let ghost before = board@;
            board[i][j] = 0;
            proof {
                assert(grid(board@)[i as int] =~= g0[i as int]);
                assert forall|r: int| 0 <= r < g0.len() implies grid(board@)[r] == g0[r] by {
                    if r != i {
                        assert(board@[r] == before[r]);
                        assert(grid(before)[r] == placed[r]);
                    }
                }
                assert(grid(board@) =~= g0);
            }
        }
        d = d + 1;
    }
    proof {
        assert forall|g: Seq<Seq<u32>>| !solves_from(g0, g, p) by {
            if solves_from(g0, g, p) {
                lemma_solution_fits(g0, g, i as int, j as int);
                let e = g[i as int][j as int];
                lemma_place(g0, g, i as int, j as int, e);
                let ei: int = e as int;
                assert(ei as u32 == e);
                assert(solves_from(g0.update(i as int, g0[i as int].update(j as int, ei as u32)), g, p + 1));
                assert(d == 10);
            }
        }
    }
    false
}

/// The number of steps between positions `a` and `b` on a line of `n`
/// positions whose ends wrap around.
pub open spec fn wrap_gap(n: int, a: int, b: int) -> int {
    let d = if a >= b { a - b } else { b - a };
    if d <= n - d { d } else { n - d }
}

/// Frames of cursor movement between two cells of an `n * n` grid with
/// wraparound, where a move may not be diagonal and a change of direction
/// costs a frame: equal gaps on both axes take two frames per step,
/// otherwise one frame fewer than twice the larger gap.
pub open spec fn cursor_frames(n: int, i1: int, j1: int, i2: int, j2: int) -> int {
    let di = wrap_gap(n, i1, i2);
    let dj = wrap_gap(n, j1, j2);
    if di == dj {
        2 * di
    } else if di >= dj {
        2 * di - 1
    } else {
        2 * dj - 1
    }
}

/// Whether both coordinate gaps fit in the grid, so that a distance is defined.
pub open spec fn gaps_fit(n: int, i1: int, j1: int, i2: int, j2: int) -> bool {
    &&& (if i1 >= i2 { i1 - i2 } else { i2 - i1 }) <= n
    &&& (if j1 >= j2 { j1 - j2 } else { j2 - j1 }) <= n
}

/// Returns the number of cursor movements to reach from (i1, j1) to (i2, j2),
/// in a grid of dimension `n * n`.
///
/// Note that in Dr. Sudoku,
/// - D-pad restriction applies.
/// - Wraparound is supported.
/// - Diagonal is not supported.
pub fn grid_distance(n: usize, from: (usize, usize), to: (usize, usize)) -> (dist: usize)
    requires
        gaps_fit(n as int, from.0 as int, from.1 as int, to.0 as int, to.1 as int),
    ensures
        dist == cursor_frames(n as int, from.0 as int, from.1 as int, to.0 as int, to.1 as int),
        dist <= n,
{
    let (i1, j1) = from;
    let (i2, j2) = to;
    let di = if i1 >= i2 { i1 - i2 } else { i2 - i1 };
    let di = if di <= n - di { di } else { n - di };
    let dj = if j1 >= j2 { j1 - j2 } else { j2 - j1 };
    let dj = if dj <= n - dj { dj } else { n - dj };
    if di == dj {
        2 * di
    } else if di >= dj {
        2 * di - 1
    } else {
        2 * dj - 1
    }
}

/// The cursor distance does not depend on the direction of travel.
pub proof fn lemma_cursor_frames_symmetric(n: int, i1: int, j1: int, i2: int, j2: int)
    ensures
        cursor_frames(n, i1, j1, i2, j2) == cursor_frames(n, i2, j2, i1, j1),
{
}

/// Moving the cursor `k` cells along a row or a column, for `k` up to half
/// the grid, takes `2k - 1` frames: a press and a release per cell, less the
/// release of the last one.
pub proof fn lemma_cursor_frames_straight(n: int, i: int, j: int, k: int)
    requires
        1 <= k,
        2 * k <= n,
    ensures
        cursor_frames(n, i, j, i, j + k) == 2 * k - 1,
        cursor_frames(n, i, j, i + k, j) == 2 * k - 1,
{
}

/// Going one cell further along a line costs exactly two more frames.
pub proof fn lemma_cursor_frames_one_further(n: int, i: int, j: int, k: int)
    requires
        1 <= k,
        2 * (k + 1) <= n,
    ensures
        cursor_frames(n, i, j, i, j + k + 1) == cursor_frames(n, i, j, i, j + k) + 2,
        cursor_frames(n, i, j, i + k + 1, j) == cursor_frames(n, i, j, i + k, j) + 2,
{
}

/// Moving `k` cells diagonally, for `k` up to half the grid, takes `2k`
/// frames: both directions are held together, one press and one release
/// per cell.
pub proof fn lemma_cursor_frames_diagonal(n: int, i: int, j: int, k: int)
    requires
        0 <= k,
        2 * k <= n,
    ensures
        cursor_frames(n, i, j, i + k, j + k) == 2 * k,
{
}

/// An uneven move costs as much as the straight move along its longer
/// side: the shorter side is covered meanwhile, and never for free.
pub proof fn lemma_cursor_frames_longer_side(n: int, i: int, j: int, k: int, m: int)
    requires
        0 <= m < k,
        2 * k <= n,
    ensures
        cursor_frames(n, i, j, i + m, j + k) == cursor_frames(n, i, j, i, j + k),
        cursor_frames(n, i, j, i + k, j + m) == cursor_frames(n, i, j, i + k, j),
        cursor_frames(n, i, j, i + m, j + k) > cursor_frames(n, i, j, i + m, j + m),
{
}

/// The cursor wraps around: going `n - k` cells one way reaches the cell
/// that `k` cells the other way reaches, at the same cost.
pub proof fn lemma_cursor_frames_wrap(n: int, i: int, j: int, k: int)
    requires
        0 <= k <= n,
    ensures
        cursor_frames(n, i, j, i, j + (n - k)) == cursor_frames(n, i, j, i, j - k),
        cursor_frames(n, i, j, i + (n - k), j) == cursor_frames(n, i, j, i - k, j),
{
}

/// Reaching a cell from itself takes no frames.
pub proof fn lemma_cursor_frames_same_cell(n: int, i: int, j: int)
    requires
        n >= 0,
    ensures
        cursor_frames(n, i, j, i, j) == 0,
{
}

/// The cell a route node stands for: node 0 is the start at (0, 0).
pub open spec fn node_cell(blanks: Seq<(usize, usize)>, node: int) -> (int, int) {
    if node == 0 {
        (0, 0)
    } else {
        (blanks[node].0 as int, blanks[node].1 as int)
    }
}

/// The digit selected at a route node: node 0 starts with digit 5.
pub open spec fn node_digit(answer: Seq<Seq<u32>>, blanks: Seq<(usize, usize)>, node: int) -> int {
    if node == 0 {
        5
    } else {
        answer[blanks[node].0 as int][blanks[node].1 as int] as int
    }
}

/// Whether the frame count between two route nodes is defined: both nodes
/// exist, the destination cell and a non-start source cell lie in `answer`,
/// both digits are at least 1, and the gaps fit the board and the 3x3 digit pad.
pub open spec fn tas_defined(
    answer: Seq<Seq<u32>>,
    blanks: Seq<(usize, usize)>,
    node_fr: int,
    node_to: int,
) -> bool {
    let (i1, j1) = node_cell(blanks, node_fr);
    let (i2, j2) = (blanks[node_to].0 as int, blanks[node_to].1 as int);
    let d1 = node_digit(answer, blanks, node_fr);
    let d2 = answer[i2][j2] as int;
    &&& 0 <= node_fr < blanks.len()
    &&& 0 <= node_to < blanks.len()
    &&& 0 <= i1 < answer.len() && 0 <= j1 < answer[i1].len()
    &&& 0 <= i2 < answer.len() && 0 <= j2 < answer[i2].len()
    &&& d1 >= 1 && d2 >= 1
    &&& gaps_fit(9, i1, j1, i2, j2)
    &&& gaps_fit(3, (d1 - 1) / 3, (d1 - 1) % 3, (d2 - 1) / 3, (d2 - 1) % 3)
}

/// Frames to move from one route node to the next: the board cursor moves
/// to the cell, and the digit cursor moves on the 3x3 pad, taking at least a
/// frame even when the digit stays the same.
pub open spec fn tas_frames(
    answer: Seq<Seq<u32>>,
    blanks: Seq<(usize, usize)>,
    node_fr: int,
    node_to: int,
) -> int {
    let (i1, j1) = node_cell(blanks, node_fr);
    let (i2, j2) = (blanks[node_to].0 as int, blanks[node_to].1 as int);
    let d1 = node_digit(answer, blanks, node_fr);
    let d2 = answer[i2][j2] as int;
    let pad = cursor_frames(3, (d1 - 1) / 3, (d1 - 1) % 3, (d2 - 1) / 3, (d2 - 1) % 3);
    cursor_frames(9, i1, j1, i2, j2) + if pad >= 1 { pad } else { 1 }
}

/// Every step takes at least one frame beyond the board cursor's moves, and
/// choosing the digit that is already selected takes exactly that one frame.
pub proof fn lemma_tas_frames_digit_wait(
    answer: Seq<Seq<u32>>,
    blanks: Seq<(usize, usize)>,
    node_fr: int,
    node_to: int,
)
    ensures
        ({
            let (i1, j1) = node_cell(blanks, node_fr);
            let (i2, j2) = (blanks[node_to].0 as int, blanks[node_to].1 as int);
            &&& tas_frames(answer, blanks, node_fr, node_to) >= cursor_frames(9, i1, j1, i2, j2) + 1
            &&& node_digit(answer, blanks, node_fr) == answer[i2][j2] ==> tas_frames(
                answer,
                blanks,
                node_fr,
                node_to,
            ) == cursor_frames(9, i1, j1, i2, j2) + 1
        }),
{
}

/// Returns the number of frames from `node_fr` to `node_to`.
/// - `answer` is the grid of answers, 0 for non-blanks and `d` for answer digit `d`.
/// - `blanks` is the list of blank cells' coordinates,
///   with (99, 99) being the first in the list and denoting the starting position.
///   Starting position is (0, 0) with digit fixed to 5.
/// - `node_fr` is the index in `blanks` of the current position.
/// - `node_to` is the index in `blanks` of the destination.
pub fn tas_distance(
    answer: &[Vec<u32>],
    blanks: &[(usize, usize)],
    node_fr: usize,
    node_to: usize,
) -> (frames: usize)
    requires
        tas_defined(grid(answer@), blanks@, node_fr as int, node_to as int),
    ensures
        frames == tas_frames(grid(answer@), blanks@, node_fr as int, node_to as int),
        1 <= frames <= 12,
{
    let ghost g = grid(answer@);
    let i1 = if node_fr == 0 { 0 } else { blanks[node_fr].0 };
    let j1 = if node_fr == 0 { 0 } else { blanks[node_fr].1 };
    proof {
        if node_fr != 0 {
            assert(answer@[i1 as int]@ == g[i1 as int]);
        }
    }
    let d1 = if node_fr == 0 { 5 } else { answer[i1][j1] as usize };
    let (i2, j2) = blanks[node_to];
    assert(answer@[i2 as int]@ == g[i2 as int]);
    let d2 = answer[i2][j2] as usize;
    // sudoku board
    let board = grid_distance(9, (i1, j1), (i2, j2));
    // digit selection
    // if the two digits are same, wait 1 frame
    let pad = grid_distance(3, ((d1 - 1) / 3, (d1 - 1) % 3), ((d2 - 1) / 3, (d2 - 1) % 3));
    board + if pad >= 1 { pad } else { 1 }
}

/// The cells among the first `p` cells in reading order whose answer is not 0.
pub open spec fn filled_upto(answer: Seq<Seq<u32>>, p: int) -> Seq<(usize, usize)>
    decreases p,
{
    if p <= 0 {
        Seq::empty()
    } else {
        let rest = filled_upto(answer, p - 1);
        let (r, c) = ((p - 1) / 9, (p - 1) % 9);
        if answer[r][c] != 0 {
            rest.push((r as usize, c as usize))
        } else {
            rest
        }
    }
}

/// The route nodes of an answer grid: the start marker (99, 99), then the
/// cells with a non-zero answer in reading order.
pub open spec fn route_nodes(answer: Seq<Seq<u32>>) -> Seq<(usize, usize)> {
    seq![(99usize, 99usize)] + filled_upto(answer, 81)
}

/// Lists the route nodes of an answer grid: (99, 99) marks the starting
/// position, followed by every cell to fill, row by row.
pub fn route_blanks(answer: &[Vec<u32>]) -> (blanks: Vec<(usize, usize)>)
    requires
        answer@.len() >= 9,
        forall|r: int| 0 <= r < 9 ==> #[trigger] answer@[r]@.len() >= 9,
    ensures
        blanks@ == route_nodes(grid(answer@)),
{
    let ghost g = grid(answer@);
    let mut blanks: Vec<(usize, usize)> = vec![(99, 99)];
    let mut i: usize = 0;
    while i < 9
        invariant
            i <= 9,
            g == grid(answer@),
            answer@.len() >= 9,
            forall|r: int| 0 <= r < 9 ==> #[trigger] answer@[r]@.len() >= 9,
            blanks@ == seq![(99usize, 99usize)] + filled_upto(g, 9 * i),
        decreases 9 - i,
    {
        let mut j: usize = 0;
        while j < 9
            invariant
                i < 9,
                j <= 9,
                g == grid(answer@),
                answer@.len() >= 9,
                forall|r: int| 0 <= r < 9 ==> #[trigger] answer@[r]@.len() >= 9,
                blanks@ == seq![(99usize, 99usize)] + filled_upto(g, 9 * i + j),
            decreases 9 - j,
        {
            assert(answer@[i as int]@ == g[i as int]);
            let ghost p = 9 * i + j + 1;
            assert((p - 1) / 9 == i && (p - 1) % 9 == j);
            if answer[i][j] != 0 {
                blanks.push((i, j));
            }
            assert(blanks@ =~= seq![(99usize, 99usize)] + filled_upto(g, p));
            j = j + 1;
        }
        i = i + 1;
    }
    blanks
}

/// The entry of the distance matrix from node `fr` to node `to`: 0 on the
/// diagonal and into the start node, the frame count otherwise.
pub open spec fn matrix_entry(
    answer: Seq<Seq<u32>>,
    blanks: Seq<(usize, usize)>,
    fr: int,
    to: int,
) -> int {
    if to == 0 || fr == to {
        0
    } else {
        tas_frames(answer, blanks, fr, to)
    }
}

/// Whether every entry of the distance matrix between the route nodes is defined.
pub open spec fn matrix_defined(answer: Seq<Seq<u32>>, blanks: Seq<(usize, usize)>) -> bool {
    forall|fr: int, to: int|
        0 <= fr < blanks.len() && 0 < to < blanks.len() && fr != to ==> #[trigger] tas_defined(
            answer,
            blanks,
            fr,
            to,
        )
}

/// Builds the asymmetric distance matrix between the route nodes: entry
/// `[fr][to]` is the number of frames from node `fr` to node `to`, and 0 on
/// the diagonal and into the start node, which no tour enters again.
pub fn distance_matrix(answer: &[Vec<u32>], blanks: &[(usize, usize)]) -> (matrix: Vec<Vec<u32>>)
    requires
        matrix_defined(grid(answer@), blanks@),
    ensures
        matrix@.len() == blanks@.len(),
        forall|fr: int| 0 <= fr < blanks@.len() ==> #[trigger] matrix@[fr]@.len() == blanks@.len(),
        forall|fr: int, to: int|
            0 <= fr < blanks@.len() && 0 <= to < blanks@.len() ==> #[trigger] matrix@[fr]@[to]
                == matrix_entry(grid(answer@), blanks@, fr, to),
{
    let n = blanks.len();
    let mut matrix: Vec<Vec<u32>> = Vec::new();
    let mut node_fr: usize = 0;
    while node_fr < n
        invariant
            n == blanks@.len(),
            node_fr <= n,
            matrix_defined(grid(answer@), blanks@),
            matrix@.len() == node_fr,
            forall|fr: int| 0 <= fr < node_fr ==> #[trigger] matrix@[fr]@.len() == n,
            forall|fr: int, to: int|
                0 <= fr < node_fr && 0 <= to < n ==> #[trigger] matrix@[fr]@[to] == matrix_entry(
                    grid(answer@),
                    blanks@,
                    fr,
                    to,
                ),
        decreases n - node_fr,
    {
        let mut row: Vec<u32> = Vec::new();
        let mut node_to: usize = 0;
        while node_to < n
            invariant
                n == blanks@.len(),
                node_fr < n,
                node_to <= n,
                matrix_defined(grid(answer@), blanks@),
                row@.len() == node_to,
                forall|to: int|
                    0 <= to < node_to ==> #[trigger] row@[to] == matrix_entry(
                        grid(answer@),
                        blanks@,
                        node_fr as int,
                        to,
                    ),
            decreases n - node_to,
        {
            if node_to == 0 || node_fr == node_to {
                row.push(0);
            } else {
                assert(tas_defined(grid(answer@), blanks@, node_fr as int, node_to as int));
                let dist = tas_distance(answer, blanks, node_fr, node_to);
                row.push(dist as u32);
            }
            node_to = node_to + 1;
        }
        matrix.push(row);
        node_fr = node_fr + 1;
    }
    matrix
}

/// Frames spent moving along a route of nodes, from each node to the next.
pub open spec fn route_frames(
    answer: Seq<Seq<u32>>,
    blanks: Seq<(usize, usize)>,
    route: Seq<usize>,
) -> int
    decreases route.len(),
{
    if route.len() < 2 {
        0
    } else {
        route_frames(answer, blanks, route.drop_last()) + tas_frames(
            answer,
            blanks,
            route[route.len() - 2] as int,
            route.last() as int,
        )
    }
}

/// Whether the frame count of the step from `route[k]` to `route[k + 1]` is defined.
pub open spec fn step_defined(
    answer: Seq<Seq<u32>>,
    blanks: Seq<(usize, usize)>,
    route: Seq<usize>,
    k: int,
) -> bool {
    tas_defined(answer, blanks, route[k] as int, route[k + 1] as int)
}

/// Whether every step of the route has a defined frame count.
pub open spec fn route_defined(
    answer: Seq<Seq<u32>>,
    blanks: Seq<(usize, usize)>,
    route: Seq<usize>,
) -> bool {
    forall|k: int| 0 <= k < route.len() - 1 ==> #[trigger] step_defined(answer, blanks, route, k)
}

proof fn lemma_route_frames_bound(
    answer: Seq<Seq<u32>>,
    blanks: Seq<(usize, usize)>,
    route: Seq<usize>,
)
    requires
        route_defined(answer, blanks, route),
    ensures
        0 <= route_frames(answer, blanks, route) <= 12 * route.len(),
    decreases route.len(),
{
    if route.len() >= 2 {
        let r = route.drop_last();
        assert forall|k: int| 0 <= k < r.len() - 1 implies #[trigger] step_defined(
            answer,
            blanks,
            r,
            k,
        ) by {
            assert(step_defined(answer, blanks, route, k));
        }
        assert(step_defined(answer, blanks, route, route.len() - 2));
        lemma_route_frames_bound(answer, blanks, r);
        lemma_tas_frames_bound(answer, blanks, route[route.len() - 2] as int, route.last() as int);
    }
}

proof fn lemma_tas_frames_bound(
    answer: Seq<Seq<u32>>,
    blanks: Seq<(usize, usize)>,
    fr: int,
    to: int,
)
    requires
        tas_defined(answer, blanks, fr, to),
    ensures
        1 <= tas_frames(answer, blanks, fr, to) <= 12,
{
}

/// Total frames of moving along `route`, a list of indices into `blanks`:
/// the sum of the frames between consecutive nodes.
pub fn route_distance(answer: &[Vec<u32>], blanks: &[(usize, usize)], route: &[usize]) -> (total: usize)
    requires
        route_defined(grid(answer@), blanks@, route@),
        12 * route@.len() <= usize::MAX,
    ensures
        total == route_frames(grid(answer@), blanks@, route@),
{
    if route.len() == 0 {
        return 0;
    }
    let mut total: usize = 0;
    let mut k: usize = 1;
    while k < route.len()
        invariant
            1 <= k <= route@.len(),
            route_defined(grid(answer@), blanks@, route@),
            12 * route@.len() <= usize::MAX,
            total == route_frames(grid(answer@), blanks@, route@.subrange(0, k as int)),
        decreases route@.len() - k,
    {
        let ghost pre = route@.subrange(0, k as int);
        let ghost next = route@.subrange(0, k + 1);
        proof {
            assert(next.drop_last() =~= pre);
            assert(step_defined(grid(answer@), blanks@, route@, k - 1));
            assert forall|j: int| 0 <= j < pre.len() - 1 implies #[trigger] step_defined(
                grid(answer@),
                blanks@,
                pre,
                j,
            ) by {
                assert(step_defined(grid(answer@), blanks@, route@, j));
            }
            lemma_route_frames_bound(grid(answer@), blanks@, pre);
        }
        let dist = tas_distance(answer, blanks, route[k - 1], route[k]);
        total = total + dist;
        k = k + 1;
    }
    assert(route@.subrange(0, k as int) =~= route@);
    total
}

/// Frames that every solution spends besides moving: three for each cell to
/// fill, one fewer for the first.
pub open spec fn fixed_frames(num_nodes: int) -> int {
    3 * num_nodes - 4
}

/// Returns the frames of a solution that do not depend on its route, for a
/// route of `num_nodes` nodes counting the start.
pub fn extra_frames(num_nodes: usize) -> (extra: usize)
    requires
        4 <= 3 * num_nodes <= usize::MAX,
    ensures
        extra == fixed_frames(num_nodes as int),
{
    3 * num_nodes - 4
}

/// The cell number (9 * row + column) of each node of a tour after its first.
pub open spec fn tour_cells(blanks: Seq<(usize, usize)>, tour: Seq<usize>) -> Seq<usize> {
    Seq::new(
        (tour.len() - 1) as nat,
        |k: int| (blanks[tour[k + 1] as int].0 * 9 + blanks[tour[k + 1] as int].1) as usize,
    )
}

/// Turns a tour of node indices, starting at the start node, into the list of
/// cell numbers `9 * row + column` to visit after the start.
pub fn tour_path(blanks: &[(usize, usize)], tour: &[usize]) -> (path: Vec<usize>)
    requires
        tour@.len() >= 1,
        forall|k: int| 1 <= k < tour@.len() ==> #[trigger] tour@[k] < blanks@.len(),
        forall|k: int|
            1 <= k < tour@.len() ==> blanks@[#[trigger] tour@[k] as int].0 * 9 + blanks@[tour@[k] as int].1
                <= usize::MAX,
    ensures
        path@ == tour_cells(blanks@, tour@),
{
    let mut path: Vec<usize> = Vec::new();
    let mut k: usize = 1;
    while k < tour.len()
        invariant
            1 <= k <= tour@.len(),
            forall|a: int| 1 <= a < tour@.len() ==> #[trigger] tour@[a] < blanks@.len(),
            forall|a: int|
                1 <= a < tour@.len() ==> blanks@[#[trigger] tour@[a] as int].0 * 9 + blanks@[tour@[a] as int].1
                    <= usize::MAX,
            path@.len() == k - 1,
            forall|a: int| 0 <= a < k - 1 ==> #[trigger] path@[a] == tour_cells(blanks@, tour@)[a],
        decreases tour@.len() - k,
    {
        let (i, j) = blanks[tour[k]];
        path.push(i * 9 + j);
        k = k + 1;
    }
    assert(path@ =~= tour_cells(blanks@, tour@));
    path
}

} // verus!
