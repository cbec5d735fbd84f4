use crate::encoder::valid_version;
use crate::grid::{cell_data, filled, is_square, Cell, Grid};
use vstd::prelude::*;

verus! {

/// How deep `(dr, dc)` lies inside an `n` by `n` square: 0 on its border.
pub open spec fn ring_depth(n: int, dr: int, dc: int) -> int {
    let a = if dr < dc { dr } else { dc };
    let b = if n - 1 - dr < n - 1 - dc { n - 1 - dr } else { n - 1 - dc };
    if a < b { a } else { b }
}

/// Nested squares: dark border, light ring, dark core. With `n == 7` this is
/// a finder pattern, with `n == 5` an alignment pattern.
pub open spec fn pattern_cell(n: int, dr: int, dc: int) -> Cell {
    if ring_depth(n, dr, dc) == 1 { Cell::ReservedLight } else { Cell::ReservedDark }
}

/// Whether `(r, c)` lies in the `n` by `n` square whose corner is `(top, left)`.
pub open spec fn in_square(r: int, c: int, top: int, left: int, n: int) -> bool {
    top <= r < top + n && left <= c < left + n
}

/// The side of the symbol of a version.
pub open spec fn side_of(version: int) -> int {
    4 * (version - 1) + 21
}

/// Whether `(r, c)` lies in a strip kept for format information.
pub open spec fn format_zone(size: int, r: int, c: int) -> bool {
    (c == 8 && (r < 9 || r > size - 9)) || (r == 8 && (c < 9 || c > size - 9))
}

/// The timing module at position `t` of row 6 or column 6.
pub open spec fn timing_cell(t: int) -> Cell {
    if t % 2 == 0 { Cell::ReservedDark } else { Cell::ReservedLight }
}

/// The position of the always-dark module of a version.
pub open spec fn dark_module_row(version: int) -> int {
    4 * version + 9
}

/// Whether `(r, c)` is a cell of a grid of side `n`.
pub open spec fn in_grid(n: int, r: int, c: int) -> bool {
    0 <= r < n && 0 <= c < n
}

/// Whether no cell of `m` holds payload.
pub open spec fn no_data(m: Seq<Seq<Cell>>) -> bool {
    forall|r: int, c: int| 0 <= r < m.len() && 0 <= c < m[r].len() ==> !cell_data(#[trigger] m[r][c])
}

/// Whether every cell of `m` is `Unwritten`.
pub open spec fn all_unwritten(m: Seq<Seq<Cell>>) -> bool {
    forall|r: int, c: int| 0 <= r < m.len() && 0 <= c < m[r].len() ==> #[trigger] m[r][c] == Cell::Unwritten
}

fn ring_depth_exec(n: usize, dr: usize, dc: usize) -> (r: usize)
    requires
        dr < n,
        dc < n,
    ensures
        r == ring_depth(n as int, dr as int, dc as int),
{
    let a = if dr < dc { dr } else { dc };
    let b = if n - 1 - dr < n - 1 - dc { n - 1 - dr } else { n - 1 - dc };
    if a < b { a } else { b }
}

/// `m` with an `n` by `n` pattern of nested squares whose corner is `(top, left)`.
pub open spec fn stamped(m: Seq<Seq<Cell>>, top: int, left: int, n: int) -> Seq<Seq<Cell>> {
    Seq::new(
        m.len(),
        |r: int|
            Seq::new(
                m[r].len(),
                |c: int| if in_square(r, c, top, left, n) { pattern_cell(n, r - top, c - left) } else { m[r][c] },
            ),
    )
}

/// `m`, of side `size`, with its timing patterns along row 6 and column 6.
pub open spec fn timed(m: Seq<Seq<Cell>>, size: int) -> Seq<Seq<Cell>> {
    Seq::new(
        m.len(),
        |r: int|
            Seq::new(
                m[r].len(),
                |c: int|
                    if c == 6 && 8 <= r < size - 7 {
                        timing_cell(r)
                    } else if r == 6 && 8 <= c < size - 7 {
                        timing_cell(c)
                    } else {
                        m[r][c]
                    },
            ),
    )
}

/// The fixed structures of a version, in the order they are laid: finder
/// patterns, separators and format strips, the alignment pattern from
/// version 2 on, timing patterns, and the dark module last.
pub open spec fn reserved_layout(version: int) -> Seq<Seq<Cell>> {
    let n = side_of(version);
    let m0 = filled(Cell::Unwritten, n as nat, n as nat);
    let m1 = stamped(stamped(stamped(m0, 0, 0, 7), n - 7, 0, 7), 0, n - 7, 7);
    let m2 = separated(m1, n);
    let m3 = if version > 1 { stamped(m2, n - 9, n - 9, 5) } else { m2 };
    let m4 = timed(m3, n);
    m4.update(dark_module_row(version), m4[dark_module_row(version)].update(8, Cell::ReservedDark))
}

/// Stamps an `n` by `n` pattern of nested squares with its corner at `(top, left)`.
pub fn place_pattern(g: &mut Grid, top: usize, left: usize, n: usize)
    requires
        old(g).wf(),
        top + n <= old(g).side(),
        left + n <= old(g).side(),
    ensures
        final(g).wf(),
        final(g).side() == old(g).side(),
        forall|r: int, c: int| #![trigger final(g)@[r][c]] in_grid(old(g).side() as int, r, c) ==>
            final(g)@[r][c] == if in_square(r, c, top as int, left as int, n as int) {
                pattern_cell(n as int, r - top, c - left)
            } else {
                old(g)@[r][c]
            },
        final(g)@ == stamped(old(g)@, top as int, left as int, n as int),
{
    let ghost g0 = g@;
    let mut i: usize = 0;
    while i < n
        invariant
            i <= n,
            g.wf(),
            g.side() == old(g).side(),
            g0 == old(g)@,
            top + n <= g.side(),
            left + n <= g.side(),
            forall|r: int, c: int| #![trigger g@[r][c]] in_grid(g.side() as int, r, c) ==>
                g@[r][c] == if in_square(r, c, top as int, left as int, n as int) && r < top + i {
                    pattern_cell(n as int, r - top, c - left)
                } else {
                    g0[r][c]
                },
        decreases n - i,
    {
        let mut j: usize = 0;
        while j < n
            invariant
                i < n,
                j <= n,
                g.wf(),
                g.side() == old(g).side(),
                top + n <= g.side(),
                left + n <= g.side(),
                forall|r: int, c: int| #![trigger g@[r][c]] in_grid(g.side() as int, r, c) ==>
                    g@[r][c] == if in_square(r, c, top as int, left as int, n as int) && (r < top + i || (r
                        == top + i && c < left + j)) {
                        pattern_cell(n as int, r - top, c - left)
                    } else {
                        g0[r][c]
                    },
            decreases n - j,
        {
            let d = ring_depth_exec(n, i, j);
            let cell = if d == 1 { Cell::ReservedLight } else { Cell::ReservedDark };
            g.set(top + i, left + j, cell);
            j = j + 1;
        }
        i = i + 1;
    }
    assert(g@ =~~= stamped(g0, top as int, left as int, n as int));
}

/// Turns the cell at `(r, c)` into a separator if it is still unwritten.
fn light_if_unwritten(g: &mut Grid, r: usize, c: usize)
    requires
        old(g).wf(),
        r < old(g).side(),
        c < old(g).side(),
    ensures
        final(g).wf(),
        final(g).side() == old(g).side(),
        final(g)@ == if old(g)@[r as int][c as int] == Cell::Unwritten {
            old(g)@.update(r as int, old(g)@[r as int].update(c as int, Cell::ReservedLight))
        } else {
            old(g)@
        },
{
    if g.get(r, c) == Cell::Unwritten {
        g.set(r, c, Cell::ReservedLight);
    }
}

/// Whether `(r, c)` is a diagonal neighbour of `(y, x)`.
pub open spec fn diagonal(r: int, c: int, y: int, x: int) -> bool {
    (r == y - 1 || r == y + 1) && (c == x - 1 || c == x + 1)
}

/// Turns every unwritten diagonal neighbour of `(y, x)` into a separator.
fn mark_neighbours(g: &mut Grid, y: usize, x: usize)
    requires
        old(g).wf(),
        y < old(g).side(),
        x < old(g).side(),
    ensures
        final(g).wf(),
        final(g).side() == old(g).side(),
        forall|r: int, c: int| #![trigger final(g)@[r][c]] in_grid(old(g).side() as int, r, c) ==> final(g)@[r][c]
            == if diagonal(r, c, y as int, x as int) && old(g)@[r][c] == Cell::Unwritten {
                Cell::ReservedLight
            } else {
                old(g)@[r][c]
            },
{
    let size = g.size();
    if y > 0 && x > 0 {
        light_if_unwritten(g, y - 1, x - 1);
    }
    if y > 0 && x + 1 < size {
        light_if_unwritten(g, y - 1, x + 1);
    }
    if y + 1 < size && x > 0 {
        light_if_unwritten(g, y + 1, x - 1);
    }
    if y + 1 < size && x + 1 < size {
        light_if_unwritten(g, y + 1, x + 1);
    }
}

/// Whether `(r, c)` comes before `(y, x)` in a scan row by row.
pub open spec fn scanned_before(r: int, c: int, y: int, x: int) -> bool {
    r < y || (r == y && c < x)
}

/// Whether `(r, c)` is a cell of `m`, of side `n`, that holds a fixed dark module.
pub open spec fn dark_at(m: Seq<Seq<Cell>>, n: int, r: int, c: int) -> bool {
    in_grid(n, r, c) && m[r][c] == Cell::ReservedDark
}

/// Whether a diagonal neighbour of `(r, c)` that comes before `(y, x)` in the
/// scan is a fixed dark module of `m`.
pub open spec fn separated_by(m: Seq<Seq<Cell>>, n: int, r: int, c: int, y: int, x: int) -> bool {
    (dark_at(m, n, r - 1, c - 1) && scanned_before(r - 1, c - 1, y, x))
    || (dark_at(m, n, r - 1, c + 1) && scanned_before(r - 1, c + 1, y, x))
    || (dark_at(m, n, r + 1, c - 1) && scanned_before(r + 1, c - 1, y, x))
    || (dark_at(m, n, r + 1, c + 1) && scanned_before(r + 1, c + 1, y, x))
}

/// Cell `(r, c)` once the scan of separators and format strips over `m` has
/// reached `(y, x)`.
pub open spec fn scan_cell(m: Seq<Seq<Cell>>, n: int, r: int, c: int, y: int, x: int) -> Cell {
    if format_zone(n, r, c) && scanned_before(r, c, y, x) {
        Cell::FormatReserved
    } else if m[r][c] == Cell::Unwritten && separated_by(m, n, r, c, y, x) {
        Cell::ReservedLight
    } else {
        m[r][c]
    }
}

/// `m`, of side `n`, with its separators and format strips: every cell of the
/// format strips is a placeholder, and every other unwritten cell with a dark
/// diagonal neighbour is light.
pub open spec fn separated(m: Seq<Seq<Cell>>, n: int) -> Seq<Seq<Cell>> {
    Seq::new(n as nat, |r: int| Seq::new(n as nat, |c: int| scan_cell(m, n, r, c, n, 0)))
}

/// In one scan row by row: every unwritten diagonal neighbour of a dark
/// module becomes a light separator, and every cell of the format strips
/// becomes a placeholder.
pub fn place_separators_and_format_zones(g: &mut Grid)
    requires
        old(g).wf(),
    ensures
        final(g).wf(),
        final(g).side() == old(g).side(),
        final(g)@ == separated(old(g)@, old(g).side() as int),
{
    let ghost g0 = g@;
    let ghost n = g.side() as int;
    let size = g.size();
    let mut y: usize = 0;
    while y < size
        invariant
            y <= size,
            size == g.side(),
            n == size,
            g.wf(),
            g.side() == old(g).side(),
            g0 == old(g)@,
            forall|r: int, c: int| #![trigger g@[r][c]] in_grid(n, r, c) ==>
                g@[r][c] == scan_cell(g0, n, r, c, y as int, 0),
        decreases size - y,
    {
        let mut x: usize = 0;
        while x < size
            invariant
                y < size,
                x <= size,
                size == g.side(),
                n == size,
                g.wf(),
                g.side() == old(g).side(),
                forall|r: int, c: int| #![trigger g@[r][c]] in_grid(n, r, c) ==>
                    g@[r][c] == scan_cell(g0, n, r, c, y as int, x as int),
            decreases size - x,
        {
            let ghost cur = g@[y as int][x as int];
            let ghost before = g@;
            if g.get(y, x) == Cell::ReservedDark {
                mark_neighbours(g, y, x);
            }
            assert forall|r: int, c: int| #![trigger g@[r][c]] in_grid(n, r, c) && !(r == y && c == x) implies g@[r][c]
                == scan_cell(g0, n, r, c, y as int, x + 1) by {
                assert(before[r][c] == scan_cell(g0, n, r, c, y as int, x as int));
                assert(cur == scan_cell(g0, n, y as int, x as int, y as int, x as int));
                assert(dark_at(g0, n, y as int, x as int) == (cur == Cell::ReservedDark));
            }
            if (x == 8 && (y < 9 || y + 9 > size)) || (y == 8 && (x < 9 || x + 9 > size)) {
                g.set(y, x, Cell::FormatReserved);
            }
            x = x + 1;
        }
        assert forall|r: int, c: int| #![trigger g@[r][c]] in_grid(n, r, c) implies g@[r][c]
            == scan_cell(g0, n, r, c, y + 1, 0) by {
            assert(g@[r][c] == scan_cell(g0, n, r, c, y as int, size as int));
        }
        y = y + 1;
    }
    assert(g@ =~~= separated(g0, n));
}

/// Lays the alternating timing modules along row 6 and column 6, between
/// the finder patterns, dark first.
pub fn place_timing(g: &mut Grid)
    requires
        old(g).wf(),
        old(g).side() >= 21,
    ensures
        final(g).wf(),
        final(g).side() == old(g).side(),
        forall|r: int, c: int| #![trigger final(g)@[r][c]] in_grid(old(g).side() as int, r, c) ==>
            final(g)@[r][c] == if c == 6 && 8 <= r < old(g).side() - 7 {
                timing_cell(r)
            } else if r == 6 && 8 <= c < old(g).side() - 7 {
                timing_cell(c)
            } else {
                old(g)@[r][c]
            },
        final(g)@ == timed(old(g)@, old(g).side() as int),
{
    let ghost g0 = g@;
    let size = g.size();
    let mut t: usize = 8;
    while t < size - 7
        invariant
            8 <= t <= size - 7,
            size == g.side(),
            size >= 21,
            g.wf(),
            g.side() == old(g).side(),
            g0 == old(g)@,
            forall|r: int, c: int| #![trigger g@[r][c]] in_grid(size as int, r, c) ==>
                g@[r][c] == if c == 6 && 8 <= r < t {
                    timing_cell(r)
                } else if r == 6 && 8 <= c < t {
                    timing_cell(c)
                } else {
                    g0[r][c]
                },
        decreases size - t,
    {
        let cell = if t % 2 == 0 { Cell::ReservedDark } else { Cell::ReservedLight };
        g.set(t, 6, cell);
        g.set(6, t, cell);
        t = t + 1;
    }
    assert(g@ =~~= timed(g0, size as int));
}

/// Whether `(r, c)` lies in one of the three finder patterns of a grid of side `size`.
pub open spec fn in_finder(size: int, r: int, c: int) -> bool {
    in_square(r, c, 0, 0, 7) || in_square(r, c, size - 7, 0, 7) || in_square(r, c, 0, size - 7, 7)
}

/// The finder module at `(r, c)`, which lies in a finder pattern.
pub open spec fn finder_cell(size: int, r: int, c: int) -> Cell {
    if in_square(r, c, 0, 0, 7) {
        pattern_cell(7, r, c)
    } else if in_square(r, c, size - 7, 0, 7) {
        pattern_cell(7, r - (size - 7), c)
    } else {
        pattern_cell(7, r, c - (size - 7))
    }
}

/// Whether `(r, c)` lies in the alignment pattern of a version.
pub open spec fn in_alignment(version: int, r: int, c: int) -> bool {
    version > 1 && in_square(r, c, side_of(version) - 9, side_of(version) - 9, 5)
}

/// Whether `(r, c)` is a timing module of a grid of side `size`.
pub open spec fn in_timing(size: int, r: int, c: int) -> bool {
    (c == 6 && 8 <= r < size - 7) || (r == 6 && 8 <= c < size - 7)
}

/// Places every fixed structure of a version on an unwritten grid: finder
/// patterns, separators, format strips, the alignment pattern of version 2,
/// timing patterns and the dark module. No payload cell is made.
pub fn place_reserved_areas(g: &mut Grid, version: usize)
    requires
        old(g).wf(),
        valid_version(version as int),
        old(g).side() == side_of(version as int),
        all_unwritten(old(g)@),
    ensures
        final(g).wf(),
        final(g).side() == old(g).side(),
        final(g)@ == reserved_layout(version as int),
{
    let ghost n = side_of(version as int);
    assert(g@ =~~= filled(Cell::Unwritten, n as nat, n as nat));
    let size = g.size();
    place_pattern(g, 0, 0, 7);
    place_pattern(g, size - 7, 0, 7);
    place_pattern(g, 0, size - 7, 7);
    place_separators_and_format_zones(g);
    if version > 1 {
        place_pattern(g, size - 9, size - 9, 5);
    }
    place_timing(g);
    g.set(4 * version + 9, 8, Cell::ReservedDark);
}

/// The fixed layout of a version holds no payload cell, and holds the three
/// finder patterns, the alignment pattern exactly from version 2 on, the
/// timing patterns, the dark module and the format placeholders that
/// nothing else covers.
pub proof fn lemma_reserved_layout(version: int)
    requires
        valid_version(version),
    ensures
        is_square(reserved_layout(version), side_of(version) as nat),
        no_data(reserved_layout(version)),
        forall|r: int, c: int| #![trigger reserved_layout(version)[r][c]] in_grid(side_of(version), r, c) ==> {
            let size = side_of(version);
            let m = reserved_layout(version);
            &&& in_finder(size, r, c) ==> m[r][c] == finder_cell(size, r, c)
            &&& in_alignment(version, r, c) ==> m[r][c] == pattern_cell(5, r - (size - 9), c - (size - 9))
            &&& in_timing(size, r, c) ==> m[r][c] == timing_cell(r + c - 6)
            &&& (r == dark_module_row(version) && c == 8) ==> m[r][c] == Cell::ReservedDark
            &&& (format_zone(size, r, c) && !in_timing(size, r, c) && !(r == dark_module_row(version)
                && c == 8)) ==> m[r][c] == Cell::FormatReserved
        },
{
    let n = side_of(version);
    let m0 = filled(Cell::Unwritten, n as nat, n as nat);
    let m1 = stamped(stamped(stamped(m0, 0, 0, 7), n - 7, 0, 7), 0, n - 7, 7);
    let m2 = separated(m1, n);
    let m3 = if version > 1 { stamped(m2, n - 9, n - 9, 5) } else { m2 };
    let m4 = timed(m3, n);
    let m = reserved_layout(version);
    assert forall|r: int, c: int| in_grid(n, r, c) implies {
        &&& #[trigger] m[r][c] == (if r == dark_module_row(version) && c == 8 { Cell::ReservedDark } else { m4[r][c] })
        &&& m1[r][c] == if in_finder(n, r, c) { finder_cell(n, r, c) } else { Cell::Unwritten }
        &&& m[r].len() == n
        &&& !cell_data(m[r][c])
    } by {
    }
}

/// The cell that carries bit `i` of `payload`, most significant bit of each
/// byte first; bits past the end read as light.
pub open spec fn payload_cell(payload: Seq<u8>, i: int) -> Cell {
    if 0 <= i < payload.len() * 8 && (payload[i / 8] >> (7 - i % 8) as u8) & 1 == 1 {
        Cell::DataDark
    } else {
        Cell::DataLight
    }
}

/// The payload cell for bit `i` of `payload`.
fn payload_cell_exec(payload: &[u8], i: usize) -> (r: Cell)
    requires
        payload@.len() * 8 <= usize::MAX,
    ensures
        r == payload_cell(payload@, i as int),
{
    if i < payload.len() * 8 {
        let byte = payload[i / 8];
        let shift: u8 = (7 - i % 8) as u8;
        if (byte >> shift) & 1 == 1 {
            Cell::DataDark
        } else {
            Cell::DataLight
        }
    } else {
        Cell::DataLight
    }
}

/// Whether `cur` may stand where `was` stood while the payload is placed.
pub open spec fn kept_or_filled(was: Cell, cur: Cell) -> bool {
    if was == Cell::Unwritten {
        cur == Cell::Unwritten || cell_data(cur)
    } else {
        cur == was
    }
}

/// One step of the path at `(r, c)` with `bit` payload bits placed so far:
/// an unwritten cell takes the next bit, any other cell is passed over.
pub open spec fn visit_step(m: Seq<Seq<Cell>>, r: int, c: int, payload: Seq<u8>, bit: int) -> (Seq<Seq<Cell>>, int) {
    if m[r][c] == Cell::Unwritten {
        (
            m.update(r, m[r].update(c, payload_cell(payload, bit))),
            if bit < payload.len() * 8 { bit + 1 } else { bit },
        )
    } else {
        (m, bit)
    }
}

/// The row of step `k` in strip `s`: odd strips run downward, even ones upward.
pub open spec fn strip_row(size: int, s: int, k: int) -> int {
    if s % 2 == 0 { size - 1 - k } else { k }
}

/// The number of two-column strips of a grid of odd side `size`.
pub open spec fn strip_count(size: int) -> int {
    (size - 1) / 2
}

/// The steps `k` onward of strip `s`, each visiting the right cell, then the left one.
pub open spec fn walk_strip(m: Seq<Seq<Cell>>, payload: Seq<u8>, size: int, s: int, k: int, bit: int) -> (
    Seq<Seq<Cell>>,
    int,
)
    decreases size - k,
{
    if k >= size || k < 0 {
        (m, bit)
    } else {
        let r = strip_row(size, s, k);
        let a = visit_step(m, r, strip_right(size, s), payload, bit);
        let b = visit_step(a.0, r, strip_right(size, s) - 1, payload, a.1);
        walk_strip(b.0, payload, size, s, k + 1, b.1)
    }
}

/// The strips `s` onward of the zig-zag path.
pub open spec fn walk(m: Seq<Seq<Cell>>, payload: Seq<u8>, size: int, s: int, bit: int) -> (Seq<Seq<Cell>>, int)
    decreases strip_count(size) - s,
{
    if s >= strip_count(size) || s < 0 {
        (m, bit)
    } else {
        let a = walk_strip(m, payload, size, s, 0, bit);
        walk(a.0, payload, size, s + 1, a.1)
    }
}

/// `m` with every unwritten cell made light.
pub open spec fn settle(m: Seq<Seq<Cell>>) -> Seq<Seq<Cell>> {
    Seq::new(
        m.len(),
        |r: int| Seq::new(m[r].len(), |c: int| if m[r][c] == Cell::Unwritten { Cell::DataLight } else { m[r][c] }),
    )
}

/// `m`, of side `size`, with the payload placed along the zig-zag path and
/// every cell left unwritten made light.
pub open spec fn placed(m: Seq<Seq<Cell>>, payload: Seq<u8>, size: int) -> Seq<Seq<Cell>> {
    settle(walk(m, payload, size, 0, 0).0)
}

/// Visits one cell of the path: an unwritten cell takes the next payload bit.
fn visit(g: &mut Grid, row: usize, col: usize, payload: &[u8], bit_index: usize) -> (next: usize)
    requires
        old(g).wf(),
        row < old(g).side(),
        col < old(g).side(),
        payload@.len() * 8 <= usize::MAX,
        bit_index <= payload@.len() * 8,
    ensures
        final(g).wf(),
        final(g).side() == old(g).side(),
        next <= payload@.len() * 8,
        (final(g)@, next as int) == visit_step(old(g)@, row as int, col as int, payload@, bit_index as int),
{
    if g.get(row, col) == Cell::Unwritten {
        g.set(row, col, payload_cell_exec(payload, bit_index));
        if bit_index < payload.len() * 8 {
            bit_index + 1
        } else {
            bit_index
        }
    } else {
        bit_index
    }
}

/// The right-hand column of strip `s` of the zig-zag path; the timing
/// column 6 is skipped.
pub open spec fn strip_right(size: int, s: int) -> int {
    if size - 1 - 2 * s >= 8 { size - 1 - 2 * s } else { size - 2 - 2 * s }
}

/// Threads the payload's bits through the unwritten cells along the zig-zag
/// path: two-column strips from the right, the first upward, each next one
/// in the other direction, right cell before left cell. Reserved cells are
/// skipped, and every cell that is still unwritten afterwards becomes light.
pub fn place_data(g: &mut Grid, payload: &[u8])
    requires
        old(g).wf(),
        old(g).side() >= 21,
        old(g).side() % 2 == 1,
        payload@.len() * 8 <= usize::MAX,
    ensures
        final(g).wf(),
        final(g).side() == old(g).side(),
        forall|r: int, c: int| #![trigger final(g)@[r][c]] in_grid(old(g).side() as int, r, c) ==>
            if old(g)@[r][c] == Cell::Unwritten {
                cell_data(final(g)@[r][c])
            } else {
                final(g)@[r][c] == old(g)@[r][c]
            },
        final(g)@ == placed(old(g)@, payload@, old(g).side() as int),
{
    let ghost g0 = g@;
    let ghost total = walk(g0, payload@, g.side() as int, 0, 0);
    let size = g.size();
    let strips = (size - 1) / 2;
    let mut bit_index: usize = 0;
    let mut s: usize = 0;
    while s < strips
        invariant
            s <= strips,
            strips == (size - 1) / 2,
            size == g.side(),
            size >= 21,
            size % 2 == 1,
            g.wf(),
            g.side() == old(g).side(),
            g0 == old(g)@,
            payload@.len() * 8 <= usize::MAX,
            bit_index <= payload@.len() * 8,
            forall|r: int, c: int| #![trigger g@[r][c]] in_grid(size as int, r, c) ==>
                kept_or_filled(g0[r][c], g@[r][c]),
            walk(g@, payload@, size as int, s as int, bit_index as int) == total,
        decreases strips - s,
    {
        let right: usize = if size - 1 - 2 * s >= 8 { size - 1 - 2 * s } else { size - 2 - 2 * s };
        let mut k: usize = 0;
        while k < size
            invariant
                s < strips,
                strips == (size - 1) / 2,
                1 <= right < size,
                k <= size,
                size == g.side(),
                g.wf(),
                g.side() == old(g).side(),
                payload@.len() * 8 <= usize::MAX,
                bit_index <= payload@.len() * 8,
                forall|r: int, c: int| #![trigger g@[r][c]] in_grid(size as int, r, c) ==>
                    kept_or_filled(g0[r][c], g@[r][c]),
                right == strip_right(size as int, s as int),
                ({
                    let a = walk_strip(g@, payload@, size as int, s as int, k as int, bit_index as int);
                    walk(a.0, payload@, size as int, s + 1, a.1) == total
                }),
            decreases size - k,
        {
            let row = if s % 2 == 0 { size - 1 - k } else { k };
            bit_index = visit(g, row, right, payload, bit_index);
            bit_index = visit(g, row, right - 1, payload, bit_index);
            k = k + 1;
        }
        s = s + 1;
    }
    let ghost gw = g@;
    assert(gw == total.0);
    let mut y: usize = 0;
    while y < size
        invariant
            y <= size,
            size == g.side(),
            g.wf(),
            g.side() == old(g).side(),
            is_square(gw, size as nat),
            forall|r: int, c: int| #![trigger g@[r][c]] in_grid(size as int, r, c) ==>
                g@[r][c] == if r < y { settle(gw)[r][c] } else { gw[r][c] },
            forall|r: int, c: int| #![trigger g@[r][c]] in_grid(size as int, r, c) ==>
                kept_or_filled(g0[r][c], g@[r][c]) && (r < y ==> g@[r][c] != Cell::Unwritten),
        decreases size - y,
    {
        let mut x: usize = 0;
        while x < size
            invariant
                y < size,
                x <= size,
                size == g.side(),
                g.wf(),
                g.side() == old(g).side(),
                is_square(gw, size as nat),
                forall|r: int, c: int| #![trigger g@[r][c]] in_grid(size as int, r, c) ==>
                    g@[r][c] == if r < y || (r == y && c < x) { settle(gw)[r][c] } else { gw[r][c] },
                forall|r: int, c: int| #![trigger g@[r][c]] in_grid(size as int, r, c) ==>
                    kept_or_filled(g0[r][c], g@[r][c]) && ((r < y || (r == y && c < x))
                        ==> g@[r][c] != Cell::Unwritten),
            decreases size - x,
        {
            if g.get(y, x) == Cell::Unwritten {
                g.set(y, x, Cell::DataLight);
            }
            x = x + 1;
        }
        y = y + 1;
    }
    assert(g@ =~~= settle(gw));
}

} // verus!
