use crate::grid::{is_square, Cell, Grid};
use crate::penalty::{penalty, penalty_exec};
use crate::placement::in_grid;
use vstd::prelude::*;

verus! {

/// The number of mask patterns.
pub const MASK_COUNT: usize = 8;

/// Whether mask `k` inverts the module in column `x` of row `y`.
pub open spec fn mask_hit(k: int, x: int, y: int) -> bool {
    if k == 0 {
        (x + y) % 2 == 0
    } else if k == 1 {
        y % 2 == 0
    } else if k == 2 {
        x % 3 == 0
    } else if k == 3 {
        (x + y) % 3 == 0
    } else if k == 4 {
        (y / 2 + x / 3) % 2 == 0
    } else if k == 5 {
        (x * y) % 2 + (x * y) % 3 == 0
    } else if k == 6 {
        ((x * y) % 2 + (x * y) % 3) % 2 == 0
    } else {
        ((x + y) % 2 + (x * y) % 3) % 2 == 0
    }
}

/// Whether mask `k` inverts the module in column `x` of row `y`.
pub fn mask_hit_exec(k: usize, x: usize, y: usize) -> (r: bool)
    requires
        k < MASK_COUNT,
        x <= 1000,
        y <= 1000,
    ensures
        r == mask_hit(k as int, x as int, y as int),
{
    assert(x * y <= 1_000_000) by (nonlinear_arith)
        requires
            x <= 1000,
            y <= 1000,
    ;
    if k == 0 {
        (x + y) % 2 == 0
    } else if k == 1 {
        y % 2 == 0
    } else if k == 2 {
        x % 3 == 0
    } else if k == 3 {
        (x + y) % 3 == 0
    } else if k == 4 {
        (y / 2 + x / 3) % 2 == 0
    } else if k == 5 {
        (x * y) % 2 + (x * y) % 3 == 0
    } else if k == 6 {
        ((x * y) % 2 + (x * y) % 3) % 2 == 0
    } else {
        ((x + y) % 2 + (x * y) % 3) % 2 == 0
    }
}

/// A payload cell with its colour inverted; any other cell as it is.
pub open spec fn flip_cell(c: Cell) -> Cell {
    if c == Cell::DataDark {
        Cell::DataLight
    } else if c == Cell::DataLight {
        Cell::DataDark
    } else {
        c
    }
}

/// `m` with mask `k` applied: payload cells that the mask hits are inverted.
pub open spec fn masked(m: Seq<Seq<Cell>>, k: int) -> Seq<Seq<Cell>> {
    Seq::new(
        m.len(),
        |r: int| Seq::new(m[r].len(), |c: int| if mask_hit(k, c, r) { flip_cell(m[r][c]) } else { m[r][c] }),
    )
}

/// A copy of the grid with mask `k` applied.
pub fn apply_mask(g: &Grid, k: usize) -> (r: Grid)
    requires
        g.wf(),
        k < MASK_COUNT,
    ensures
        r.wf(),
        r.side() == g.side(),
        r@ == masked(g@, k as int),
{
    let mut out = g.copy();
    let size = g.size();
    let mut y: usize = 0;
    while y < size
        invariant
            y <= size,
            size == g.side(),
            g.wf(),
            out.wf(),
            out.side() == size,
            k < MASK_COUNT,
            forall|r: int, c: int| #![trigger out@[r][c]] in_grid(size as int, r, c) ==> out@[r][c]
                == if r < y { masked(g@, k as int)[r][c] } else { g@[r][c] },
        decreases size - y,
    {
        let mut x: usize = 0;
        while x < size
            invariant
                y < size,
                x <= size,
                size == g.side(),
                g.wf(),
                out.wf(),
                out.side() == size,
                k < MASK_COUNT,
                forall|r: int, c: int| #![trigger out@[r][c]] in_grid(size as int, r, c) ==> out@[r][c]
                    == if r < y || (r == y && c < x) {
                        masked(g@, k as int)[r][c]
                    } else {
                        g@[r][c]
                    },
            decreases size - x,
        {
            if mask_hit_exec(k, x, y) {
                let c = out.get(y, x);
                if c == Cell::DataDark {
                    out.set(y, x, Cell::DataLight);
                } else if c == Cell::DataLight {
                    out.set(y, x, Cell::DataDark);
                }
            }
            x = x + 1;
        }
        y = y + 1;
    }
    assert(out@ =~~= masked(g@, k as int));
    out
}

/// The 15-bit format word of level Q with mask `k`.
pub open spec fn format_word(k: int) -> u32 {
    if k == 0 {
        0x355F
    } else if k == 1 {
        0x3068
    } else if k == 2 {
        0x3F31
    } else if k == 3 {
        0x3A06
    } else if k == 4 {
        0x24B4
    } else if k == 5 {
        0x2183
    } else if k == 6 {
        0x2EDA
    } else {
        0x2BED
    }
}

/// The format word of level Q with mask `k`.
fn format_word_exec(k: usize) -> (r: u32)
    ensures
        r == format_word(k as int),
{
    let table: [u32; 8] = [0x355F, 0x3068, 0x3F31, 0x3A06, 0x24B4, 0x2183, 0x2EDA, 0x2BED];
    if k < 8 {
        table[k]
    } else {
        0x2BED
    }
}

/// The module for bit `i` of a format word; a bit outside the word is light.
pub open spec fn format_cell(word: u32, i: int) -> Cell {
    if 0 <= i < 16 && (word >> (i as u32)) & 1u32 == 1u32 {
        Cell::ReservedDark
    } else {
        Cell::ReservedLight
    }
}

/// The module for bit `i` of a format word.
fn format_cell_exec(word: u32, i: usize) -> (r: Cell)
    ensures
        r == format_cell(word, i as int),
{
    if i < 16 && (word >> (i as u32)) & 1u32 == 1u32 {
        Cell::ReservedDark
    } else {
        Cell::ReservedLight
    }
}

/// The number of format placeholders among the first `n` cells of `s`.
pub open spec fn reserved_before(s: Seq<Cell>, n: int) -> int
    decreases n,
{
    if n <= 0 {
        0
    } else {
        reserved_before(s, n - 1) + if s[n - 1] == Cell::FormatReserved { 1int } else { 0int }
    }
}

/// The bit that the `h`-th placeholder of row 8, in column `x`, receives:
/// bits 14 downward in the left half, bits 15 downward in the right half.
pub open spec fn row_bit(size: int, x: int, h: int) -> int {
    if x < size / 2 { 14 - h } else { 15 - h }
}

/// The bit that the `v`-th placeholder of column 8 receives: bits 0
/// upward, with bit 7, which row 8 already holds twice, passed over.
pub open spec fn col_bit(v: int) -> int {
    if v <= 6 { v } else { v + 1 }
}

/// Column `c` of `m`.
pub open spec fn column(m: Seq<Seq<Cell>>, c: int) -> Seq<Cell> {
    Seq::new(m.len(), |r: int| m[r][c])
}

/// `m` with the placeholders of row 8 filled from the format word of mask `k`.
pub open spec fn format_row(m: Seq<Seq<Cell>>, k: int) -> Seq<Seq<Cell>> {
    m.update(
        8,
        Seq::new(
            m[8].len(),
            |x: int|
                if m[8][x] == Cell::FormatReserved {
                    format_cell(format_word(k), row_bit(m.len() as int, x, reserved_before(m[8], x)))
                } else {
                    m[8][x]
                },
        ),
    )
}

/// `m` with the placeholders of column 8 filled from the format word of mask `k`.
pub open spec fn format_col(m: Seq<Seq<Cell>>, k: int) -> Seq<Seq<Cell>> {
    Seq::new(
        m.len(),
        |y: int|
            if m[y][8] == Cell::FormatReserved {
                m[y].update(8, format_cell(format_word(k), col_bit(reserved_before(column(m, 8), y))))
            } else {
                m[y]
            },
    )
}

/// `m` with the format information of mask `k` written: row 8 first, then
/// the placeholders of column 8 that are left.
pub open spec fn formatted(m: Seq<Seq<Cell>>, k: int) -> Seq<Seq<Cell>> {
    format_col(format_row(m, k), k)
}

/// The candidate symbol of mask `k`: `m` masked, then its format written.
pub open spec fn candidate(m: Seq<Seq<Cell>>, k: int) -> Seq<Seq<Cell>> {
    formatted(masked(m, k), k)
}

/// Writes the format information of mask `k` into the placeholders of row 8
/// and then of column 8.
pub fn write_format(g: &mut Grid, k: usize)
    requires
        old(g).wf(),
        old(g).side() > 8,
        k < MASK_COUNT,
    ensures
        final(g).wf(),
        final(g).side() == old(g).side(),
        final(g)@ == formatted(old(g)@, k as int),
{
    let ghost g0 = g@;
    let ghost target = format_row(g0, k as int);
    let size = g.size();
    let word = format_word_exec(k);
    let mut h: usize = 0;
    let mut x: usize = 0;
    while x < size
        invariant
            x <= size,
            size == g.side(),
            size > 8,
            g.wf(),
            g.side() == old(g).side(),
            g0 == old(g)@,
            is_square(g0, size as nat),
            word == format_word(k as int),
            target == format_row(g0, k as int),
            h == reserved_before(g0[8], x as int),
            h <= x,
            forall|r: int, c: int| #![trigger g@[r][c]] in_grid(size as int, r, c) ==> g@[r][c]
                == if r == 8 && c < x { target[r][c] } else { g0[r][c] },
        decreases size - x,
    {
        proof {
            assert(g0[8].len() == size);
            assert(target.len() == size);
            assert(target[8][x as int] == if g0[8][x as int] == Cell::FormatReserved {
                format_cell(word, row_bit(size as int, x as int, h as int))
            } else {
                g0[8][x as int]
            });
            assert(reserved_before(g0[8], x + 1) == reserved_before(g0[8], x as int) + if g0[8][x as int]
                == Cell::FormatReserved {
                1int
            } else {
                0int
            });
        }
        if g.get(8, x) == Cell::FormatReserved {
            let base: usize = if x < size / 2 { 14 } else { 15 };
            let cell = if h > base { Cell::ReservedLight } else { format_cell_exec(word, base - h) };
            g.set(8, x, cell);
            h = h + 1;
        }
        x = x + 1;
    }
    assert(g@ =~~= target);
    let ghost g1 = g@;
    assert(is_square(g1, size as nat));
    let ghost target2 = format_col(g1, k as int);
    let mut v: usize = 0;
    let mut y: usize = 0;
    while y < size
        invariant
            y <= size,
            size == g.side(),
            size > 8,
            g.wf(),
            g.side() == old(g).side(),
            g1 == target,
            is_square(g1, size as nat),
            word == format_word(k as int),
            target2 == format_col(g1, k as int),
            v == reserved_before(column(g1, 8), y as int),
            v <= y,
            forall|r: int, c: int| #![trigger g@[r][c]] in_grid(size as int, r, c) ==> g@[r][c]
                == if c == 8 && r < y { target2[r][c] } else { g1[r][c] },
        decreases size - y,
    {
        proof {
            let col = column(g1, 8);
            assert(g1.len() == size);
            assert(col[y as int] == g1[y as int][8]);
            assert(reserved_before(col, y + 1) == reserved_before(col, y as int) + if col[y as int]
                == Cell::FormatReserved {
                1int
            } else {
                0int
            });
            assert(g1[y as int].len() == size);
            assert(target2[y as int] == if g1[y as int][8] == Cell::FormatReserved {
                g1[y as int].update(8, format_cell(word, col_bit(v as int)))
            } else {
                g1[y as int]
            });
        }
        if g.get(y, 8) == Cell::FormatReserved {
            let i: usize = if v <= 6 { v } else { v + 1 };
            g.set(y, 8, format_cell_exec(word, i));
            v = v + 1;
        }
        y = y + 1;
    }
    assert(g@ =~~= target2);
}

/// Whether mask `best` has the lowest penalty among the candidates of `m`,
/// and no mask before it has a penalty as low.
pub open spec fn is_best_mask(m: Seq<Seq<Cell>>, size: int, best: int) -> bool {
    &&& 0 <= best < MASK_COUNT
    &&& forall|j: int| 0 <= j < MASK_COUNT ==> penalty(candidate(m, best), size) <= penalty(
        #[trigger] candidate(m, j),
        size,
    )
    &&& forall|j: int| 0 <= j < best ==> penalty(candidate(m, best), size) < penalty(
        #[trigger] candidate(m, j),
        size,
    )
}

/// Builds the eight candidates of a filled grid, scores each and returns the
/// one with the lowest penalty, the first such on a tie, with its mask.
pub fn choose_mask(g: &Grid) -> (r: (Grid, usize))
    requires
        g.wf(),
        g.side() > 8,
    ensures
        r.0.wf(),
        r.0.side() == g.side(),
        is_best_mask(g@, g.side() as int, r.1 as int),
        r.0@ == candidate(g@, r.1 as int),
{
    let mut best = apply_mask(g, 0);
    write_format(&mut best, 0);
    let mut best_pen = penalty_exec(&best);
    let mut best_k: usize = 0;
    let mut k: usize = 1;
    while k < MASK_COUNT
        invariant
            1 <= k <= MASK_COUNT,
            g.wf(),
            g.side() > 8,
            best.wf(),
            best.side() == g.side(),
            best_k < k,
            best@ == candidate(g@, best_k as int),
            best_pen == penalty(best@, g.side() as int),
            forall|j: int| 0 <= j < k ==> best_pen <= penalty(#[trigger] candidate(g@, j), g.side() as int),
            forall|j: int| 0 <= j < best_k ==> best_pen < penalty(#[trigger] candidate(g@, j), g.side() as int),
        decreases MASK_COUNT - k,
    {
        let mut cand = apply_mask(g, k);
        write_format(&mut cand, k);
        let pen = penalty_exec(&cand);
        if pen < best_pen {
            best = cand;
            best_pen = pen;
            best_k = k;
        }
        k = k + 1;
    }
    (best, best_k)
}

} // verus!
