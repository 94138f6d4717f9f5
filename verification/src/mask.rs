use vstd::prelude::*;

use crate::matrix::{grid_index, Matrix, Module, ON};

verus! {

/// The cell at (x, y) renders dark.
pub open spec fn cell_on(s: Seq<Module>, w: int, x: int, y: int) -> bool {
    s[grid_index(w, x, y)].0 & ON == ON
}

/// Row `y` as a line of rendered bits.
pub open spec fn row_line(s: Seq<Module>, w: int, y: int) -> Seq<bool> {
    Seq::new(w as nat, |x: int| cell_on(s, w, x, y))
}

/// Column `x` as a line of rendered bits.
pub open spec fn col_line(s: Seq<Module>, w: int, x: int) -> Seq<bool> {
    Seq::new(w as nat, |y: int| cell_on(s, w, x, y))
}

/// Length of the same-colour run that ends at position `i` of the line.
pub open spec fn run_len_ending(line: Seq<bool>, i: int) -> int
    decreases i,
{
    if i <= 0 {
        1
    } else if line[i] == line[i - 1] {
        1 + run_len_ending(line, i - 1)
    } else {
        1
    }
}

/// Run penalty a single position contributes: 3 when it completes a run of
/// five, 1 for every position a run extends past five.
pub open spec fn run_contribution(line: Seq<bool>, i: int) -> int {
    let rl = run_len_ending(line, i);
    if rl == 5 {
        3
    } else if rl > 5 {
        1
    } else {
        0
    }
}

/// Run penalty of the first `i` positions of the line.
pub open spec fn run_score_to(line: Seq<bool>, i: int) -> int
    decreases i,
{
    if i <= 0 {
        0
    } else {
        run_score_to(line, i - 1) + run_contribution(line, i - 1)
    }
}

/// The eleven-cell finder-like pattern, read along the line.
pub open spec fn finder_pattern_a() -> Seq<bool> {
    seq![true, false, true, true, true, false, true, false, false, false, false]
}

/// The reverse of `finder_pattern_a`.
pub open spec fn finder_pattern_b() -> Seq<bool> {
    seq![false, false, false, false, true, false, true, true, true, false, true]
}

/// The eleven cells ending at `x` spell a finder-like pattern.
pub open spec fn pattern_at(line: Seq<bool>, x: int) -> bool {
    ||| line.subrange(x - 10, x + 1) =~= finder_pattern_a()
    ||| line.subrange(x - 10, x + 1) =~= finder_pattern_b()
}

/// Finder-pattern penalty of the windows ending before position `i`: each
/// occurrence scores 40.
pub open spec fn pattern_score_to(line: Seq<bool>, i: int) -> int
    decreases i,
{
    if i <= 10 {
        0
    } else {
        pattern_score_to(line, i - 1) + if pattern_at(line, i - 1) {
            40int
        } else {
            0int
        }
    }
}

/// Total penalty of one line: runs and finder-like patterns.
pub open spec fn line_score(line: Seq<bool>) -> int {
    run_score_to(line, line.len() as int) + pattern_score_to(line, line.len() as int)
}

/// Line penalties of the first `y` rows.
pub open spec fn rows_score_to(s: Seq<Module>, w: int, y: int) -> int
    decreases y,
{
    if y <= 0 {
        0
    } else {
        rows_score_to(s, w, y - 1) + line_score(row_line(s, w, y - 1))
    }
}

/// Line penalties of the first `x` columns.
pub open spec fn cols_score_to(s: Seq<Module>, w: int, x: int) -> int
    decreases x,
{
    if x <= 0 {
        0
    } else {
        cols_score_to(s, w, x - 1) + line_score(col_line(s, w, x - 1))
    }
}

/// A dark 2x2 block with its corner at grid position `j` of the (w-1)-wide
/// block grid scores 3 when its four cells agree.
pub open spec fn block_contribution(s: Seq<Module>, w: int, j: int) -> int {
    let x = j % (w - 1);
    let y = j / (w - 1);
    if cell_on(s, w, x, y) == cell_on(s, w, x + 1, y) && cell_on(s, w, x, y) == cell_on(
        s,
        w,
        x,
        y + 1,
    ) && cell_on(s, w, x, y) == cell_on(s, w, x + 1, y + 1) {
        3
    } else {
        0
    }
}

/// Block penalty of the first `j` block corners.
pub open spec fn blocks_score_to(s: Seq<Module>, w: int, j: int) -> int
    decreases j,
{
    if j <= 0 {
        0
    } else {
        blocks_score_to(s, w, j - 1) + block_contribution(s, w, j - 1)
    }
}

/// Count of dark cells among the first `i` cells.
pub open spec fn dark_count_to(s: Seq<Module>, i: int) -> int
    decreases i,
{
    if i <= 0 {
        0
    } else {
        dark_count_to(s, i - 1) + if s[i - 1].0 & ON == ON {
            1int
        } else {
            0int
        }
    }
}

/// Dark-proportion penalty: the dark percentage rounded (half up) to the
/// nearest multiple of five, scored 10 for each five percent away from 50.
pub open spec fn dark_score_spec(dark: int, total: int) -> int {
    let n5 = (2 * 20 * dark + total) / (2 * total);
    10 * (if n5 >= 10 {
        n5 - 10
    } else {
        10 - n5
    })
}

/// The mask penalty of a symbol: runs and finder-like patterns along every
/// row and column, 2x2 blocks of one colour, and the dark proportion.
pub open spec fn score_spec(s: Seq<Module>, w: int) -> int {
    dark_score_spec(dark_count_to(s, w * w), w * w) + blocks_score_to(s, w, (w - 1) * (w - 1))
        + rows_score_to(s, w, w) + cols_score_to(s, w, w)
}

proof fn lemma_run_len_bound(line: Seq<bool>, i: int)
    ensures
        1 <= run_len_ending(line, i) <= (if i >= 0 {
            i + 1
        } else {
            1int
        }),
    decreases i,
{
    if i > 0 {
        lemma_run_len_bound(line, i - 1);
    }
}

proof fn lemma_run_score_bound(line: Seq<bool>, i: int)
    ensures
        0 <= run_score_to(line, i) <= 3 * (if i >= 0 {
            i
        } else {
            0int
        }),
    decreases i,
{
    if i > 0 {
        lemma_run_score_bound(line, i - 1);
    }
}

proof fn lemma_pattern_score_bound(line: Seq<bool>, i: int)
    ensures
        0 <= pattern_score_to(line, i) <= 40 * (if i >= 0 {
            i
        } else {
            0int
        }),
    decreases i,
{
    if i > 10 {
        lemma_pattern_score_bound(line, i - 1);
    }
}

proof fn lemma_rows_score_bound(s: Seq<Module>, w: int, y: int)
    requires
        0 < w <= 177,
    ensures
        0 <= rows_score_to(s, w, y) <= 7611 * (if y >= 0 {
            y
        } else {
            0int
        }),
    decreases y,
{
    if y > 0 {
        lemma_rows_score_bound(s, w, y - 1);
        lemma_run_score_bound(row_line(s, w, y - 1), w);
        lemma_pattern_score_bound(row_line(s, w, y - 1), w);
    }
}

proof fn lemma_cols_score_bound(s: Seq<Module>, w: int, x: int)
    requires
        0 < w <= 177,
    ensures
        0 <= cols_score_to(s, w, x) <= 7611 * (if x >= 0 {
            x
        } else {
            0int
        }),
    decreases x,
{
    if x > 0 {
        lemma_cols_score_bound(s, w, x - 1);
        lemma_run_score_bound(col_line(s, w, x - 1), w);
        lemma_pattern_score_bound(col_line(s, w, x - 1), w);
    }
}

proof fn lemma_blocks_score_bound(s: Seq<Module>, w: int, j: int)
    ensures
        0 <= blocks_score_to(s, w, j) <= 3 * (if j >= 0 {
            j
        } else {
            0int
        }),
    decreases j,
{
    if j > 0 {
        lemma_blocks_score_bound(s, w, j - 1);
    }
}

proof fn lemma_dark_count_bound(s: Seq<Module>, i: int)
    ensures
        0 <= dark_count_to(s, i) <= (if i >= 0 {
            i
        } else {
            0int
        }),
    decreases i,
{
    if i > 0 {
        lemma_dark_count_bound(s, i - 1);
    }
}

/// Scores one line of rendered bits: runs and finder-like patterns.
fn score_line(matrix: &Matrix, fixed: usize, by_col: bool) -> (r: u32)
    requires
        matrix.wf(),
        fixed < matrix.width,
    ensures
        r as int == line_score(
            if by_col {
                col_line(matrix.value@, matrix.width as int, fixed as int)
            } else {
                row_line(matrix.value@, matrix.width as int, fixed as int)
            },
        ),
{
    let w = matrix.width;
    let ghost line = if by_col {
        col_line(matrix.value@, w as int, fixed as int)
    } else {
        row_line(matrix.value@, w as int, fixed as int)
    };
    let mut total: u32 = 0;
    let mut streak: u32 = 1;
    let mut i: usize = 0;
    let mut prev: bool = false;
    while i < w
        invariant
            matrix.wf(),
            i <= w,
            w == matrix.width,
            fixed < w,
            line == (if by_col {
                col_line(matrix.value@, w as int, fixed as int)
            } else {
                row_line(matrix.value@, w as int, fixed as int)
            }),
            line.len() == w,
            i > 0 ==> streak as int == run_len_ending(line, i - 1),
            i > 0 ==> prev == line[i - 1],
            streak <= 177,
            total as int == run_score_to(line, i as int) + pattern_score_to(line, i as int),
            total <= 7611 * i,
        decreases w - i,
    {
        proof {
            lemma_run_score_bound(line, i as int);
            lemma_pattern_score_bound(line, i as int);
        }
        let cur = if by_col {
            matrix.get(fixed, i).has(Module(ON))
        } else {
            matrix.get(i, fixed).has(Module(ON))
        };
        proof {
            assert(cur == line[i as int]);
        }
        if i > 0 && cur == prev {
            proof {
                lemma_run_len_bound(line, i - 1);
                assert(run_len_ending(line, i as int) == 1 + run_len_ending(line, i - 1));
            }
            streak = streak + 1;
        } else {
            streak = 1;
        }
        if streak == 5 {
            total = total + 3;
        } else if streak > 5 {
            total = total + 1;
        }
        if i >= 10 {
            let m_a = check_pattern(matrix, fixed, by_col, i, true);
            let m_b = check_pattern(matrix, fixed, by_col, i, false);
            if m_a || m_b {
                total = total + 40;
            }
            proof {
                assert((m_a || m_b) == pattern_at(line, i as int));
            }
        }
        prev = cur;
        i += 1;
    }
    total
}

/// Whether the eleven cells ending at `x` spell one of the two finder-like
/// patterns.
fn check_pattern(matrix: &Matrix, fixed: usize, by_col: bool, x: usize, first: bool) -> (r: bool)
    requires
        matrix.wf(),
        fixed < matrix.width,
        10 <= x < matrix.width,
    ensures
        ({
            let line = if by_col {
                col_line(matrix.value@, matrix.width as int, fixed as int)
            } else {
                row_line(matrix.value@, matrix.width as int, fixed as int)
            };
            r == (line.subrange(x - 10, x + 1) =~= (if first {
                finder_pattern_a()
            } else {
                finder_pattern_b()
            }))
        }),
{
    let ghost line = if by_col {
        col_line(matrix.value@, matrix.width as int, fixed as int)
    } else {
        row_line(matrix.value@, matrix.width as int, fixed as int)
    };
    let mut ok = true;
    let mut k: usize = 0;
    while k < 11
        invariant
            matrix.wf(),
            k <= 11,
            fixed < matrix.width,
            10 <= x < matrix.width,
            line == (if by_col {
                col_line(matrix.value@, matrix.width as int, fixed as int)
            } else {
                row_line(matrix.value@, matrix.width as int, fixed as int)
            }),
            line.len() == matrix.width,
            ok == forall|q: int|
                0 <= q < k ==> #[trigger] line[x - 10 + q] == (if first {
                    finder_pattern_a()
                } else {
                    finder_pattern_b()
                })[q],
        decreases 11 - k,
    {
        let want: bool = if first {
            k == 0 || k == 2 || k == 3 || k == 4 || k == 6
        } else {
            k == 4 || k == 6 || k == 7 || k == 8 || k == 10
        };
        let pos = x - 10 + k;
        let cur = if by_col {
            matrix.get(fixed, pos).has(Module(ON))
        } else {
            matrix.get(pos, fixed).has(Module(ON))
        };
        proof {
            assert(cur == line[pos as int]);
            assert(want == (if first {
                finder_pattern_a()
            } else {
                finder_pattern_b()
            })[k as int]);
        }
        if cur != want {
            ok = false;
        }
        k += 1;
    }
    proof {
        let pat = if first {
            finder_pattern_a()
        } else {
            finder_pattern_b()
        };
        let win = line.subrange(x - 10, x + 1);
        assert(win.len() == 11 && pat.len() == 11);
        if ok {
            assert forall|q: int| 0 <= q < 11 implies win[q] == pat[q] by {
                assert(win[q] == line[x - 10 + q]);
            }
            assert(win =~= pat);
        } else {
            let q = choose|q: int| 0 <= q < 11 && #[trigger] line[x - 10 + q] != pat[q];
            assert(win[q] == line[x - 10 + q]);
            assert(!(win =~= pat));
        }
    }
    ok
}

/// Computes the mask penalty of the symbol; see `score_spec`.
pub fn score(matrix: &Matrix) -> (r: u32)
    requires
        matrix.wf(),
    ensures
        r as int == score_spec(matrix.value@, matrix.width as int),
{
    let w = matrix.width;
    let ghost s = matrix.value@;
    proof {
        crate::matrix::lemma_grid_index_bounds(w as int, 0, 0);
    }

    // Dark proportion.
    let mut dark: u32 = 0;
    let mut y: usize = 0;
    while y < w
        invariant
            matrix.wf(),
            y <= w,
            w == matrix.width,
            s == matrix.value@,
            dark as int == dark_count_to(s, y * w as int),
            dark <= y * w,
            w * w <= 31329,
        decreases w - y,
    {
        let mut x: usize = 0;
        while x < w
            invariant
                matrix.wf(),
                x <= w,
                y < w,
                w == matrix.width,
                s == matrix.value@,
                dark as int == dark_count_to(s, y * w + x as int),
                dark <= y * w + x,
                w * w <= 31329,
            decreases w - x,
        {
            proof {
                crate::matrix::lemma_grid_index_bounds(w as int, x as int, y as int);
                lemma_dark_count_bound(s, y * w + x as int);
            }
            if matrix.get(x, y).has(Module(ON)) {
                dark = dark + 1;
            }
            x += 1;
        }
        proof {
            vstd::arithmetic::mul::lemma_mul_is_distributive_add_other_way(w as int, y as int, 1);
        }
        y += 1;
    }
    proof {
        vstd::arithmetic::mul::lemma_mul_is_commutative(w as int, w as int);
    }
    let total_cells: u32 = (w * w) as u32;
    let n5: u32 = (2 * 20 * dark + total_cells) / (2 * total_cells);
    proof {
        vstd::arithmetic::div_mod::lemma_div_is_ordered(
            2 * 20 * dark as int + total_cells as int,
            41 * total_cells as int,
            2 * total_cells as int,
        );
        assert((41 * total_cells as int) / (2 * total_cells as int) <= 21) by (nonlinear_arith)
            requires
                total_cells >= 1,
        ;
    }
    let dark_pen: u32 = 10 * (if n5 >= 10 {
        n5 - 10
    } else {
        10 - n5
    });

    // 2x2 blocks of one colour.
    let bw = w - 1;
    proof {
        assert(bw * bw < 31329) by (nonlinear_arith)
            requires
                bw <= 176,
        ;
    }
    let mut blocks: u32 = 0;
    let mut y: usize = 0;
    while y < bw
        invariant
            matrix.wf(),
            y <= bw,
            w == matrix.width,
            bw == w - 1,
            s == matrix.value@,
            blocks as int == blocks_score_to(s, w as int, y * bw as int),
            blocks <= 3 * (y * bw),
            bw * bw < 31329,
        decreases bw - y,
    {
        let mut x: usize = 0;
        while x < bw
            invariant
                matrix.wf(),
                x <= bw,
                y < bw,
                w == matrix.width,
                bw == w - 1,
                s == matrix.value@,
                blocks as int == blocks_score_to(s, w as int, y * bw + x as int),
                blocks <= 3 * (y * bw + x),
                bw * bw < 31329,
            decreases bw - x,
        {
            proof {
                crate::matrix::lemma_grid_index_bounds(bw as int, x as int, y as int);
                crate::matrix::lemma_grid_decompose(bw as int, x as int, y as int);
                lemma_blocks_score_bound(s, w as int, y * bw + x as int);
            }
            let c = matrix.get(x, y).has(Module(ON));
            let tr = matrix.get(x + 1, y).has(Module(ON));
            let bl = matrix.get(x, y + 1).has(Module(ON));
            let br = matrix.get(x + 1, y + 1).has(Module(ON));
            if c == tr && c == bl && c == br {
                blocks = blocks + 3;
            }
            x += 1;
        }
        proof {
            vstd::arithmetic::mul::lemma_mul_is_distributive_add_other_way(bw as int, y as int, 1);
        }
        y += 1;
    }

    // Runs and finder-like patterns along every row and column.
    let mut lines: u32 = 0;
    let mut y: usize = 0;
    while y < w
        invariant
            matrix.wf(),
            y <= w,
            w == matrix.width,
            s == matrix.value@,
            lines as int == rows_score_to(s, w as int, y as int),
            lines <= 7611 * y,
        decreases w - y,
    {
        proof {
            lemma_rows_score_bound(s, w as int, y as int);
            lemma_run_score_bound(row_line(s, w as int, y as int), w as int);
            lemma_pattern_score_bound(row_line(s, w as int, y as int), w as int);
        }
        let one = score_line(matrix, y, false);
        proof {
            lemma_run_score_bound(row_line(s, w as int, y as int), w as int);
            lemma_pattern_score_bound(row_line(s, w as int, y as int), w as int);
        }
        lines = lines + one;
        y += 1;
    }
    let mut x: usize = 0;
    while x < w
        invariant
            matrix.wf(),
            x <= w,
            w == matrix.width,
            s == matrix.value@,
            lines as int == rows_score_to(s, w as int, w as int) + cols_score_to(
                s,
                w as int,
                x as int,
            ),
            lines <= 7611 * 177 + 7611 * x,
        decreases w - x,
    {
        proof {
            lemma_rows_score_bound(s, w as int, w as int);
            lemma_cols_score_bound(s, w as int, x as int);
            lemma_run_score_bound(col_line(s, w as int, x as int), w as int);
            lemma_pattern_score_bound(col_line(s, w as int, x as int), w as int);
        }
        let one = score_line(matrix, x, true);
        lines = lines + one;
        x += 1;
    }
    proof {
        lemma_rows_score_bound(s, w as int, w as int);
        lemma_cols_score_bound(s, w as int, w as int);
        lemma_blocks_score_bound(s, w as int, (w as int - 1) * (w as int - 1));
        lemma_dark_count_bound(s, w as int * w as int);
        vstd::arithmetic::mul::lemma_mul_is_commutative(w as int - 1, w as int - 1);
        assert(bw * bw == (w as int - 1) * (w as int - 1));
    }
    dark_pen + blocks + lines
}

} // verus!
