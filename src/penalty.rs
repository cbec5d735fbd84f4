use crate::grid::{cell_dark, Cell, Grid};
use vstd::prelude::*;

verus! {

/// The darkness of row `r` of `m`, left to right.
pub open spec fn row_line(m: Seq<Seq<Cell>>, r: int) -> Seq<bool> {
    Seq::new(m[r].len(), |c: int| cell_dark(m[r][c]))
}

/// The darkness of column `c` of `m`, top to bottom.
pub open spec fn col_line(m: Seq<Seq<Cell>>, c: int) -> Seq<bool> {
    Seq::new(m.len(), |r: int| cell_dark(m[r][c]))
}

/// Row `i` of `m`, or column `i` when `vertical`.
pub open spec fn line_of(m: Seq<Seq<Cell>>, i: int, vertical: bool) -> Seq<bool> {
    if vertical { col_line(m, i) } else { row_line(m, i) }
}

/// The cost of a run of equal modules: `3 + (run - 5)` from length 5 on.
pub open spec fn run_cost(run: int) -> int {
    if run >= 5 { 3 + (run - 5) } else { 0 }
}

/// The cost of the runs of `line` from position `i` on, where the run that
/// ends just before `i` has length `run`.
pub open spec fn runs_from(line: Seq<bool>, i: int, run: int) -> int
    decreases line.len() - i,
{
    if i >= line.len() || i < 0 {
        run_cost(run)
    } else if i > 0 && line[i] == line[i - 1] {
        runs_from(line, i + 1, run + 1)
    } else {
        run_cost(run) + runs_from(line, i + 1, 1)
    }
}

/// Run-length cost of one line: every maximal run of at least five equal
/// modules, the one at the line's end included.
pub open spec fn run_penalty(line: Seq<bool>) -> int {
    runs_from(line, 0, 0)
}

/// The pattern dark-light-dark-dark-dark-light-dark followed by four light modules.
pub open spec fn pattern_fwd() -> Seq<bool> {
    seq![true, false, true, true, true, false, true, false, false, false, false]
}

/// `pattern_fwd` read backwards.
pub open spec fn pattern_bwd() -> Seq<bool> {
    seq![false, false, false, false, true, false, true, true, true, false, true]
}

/// Whether the eleven modules of `line` from `x` on equal `pat`.
pub open spec fn window_is(line: Seq<bool>, x: int, pat: Seq<bool>) -> bool {
    &&& 0 <= x
    &&& x + 11 <= line.len()
    &&& forall|i: int| 0 <= i < 11 ==> line[x + i] == pat[i]
}

/// Whether either pattern starts at `x` in `line`.
pub open spec fn pattern_at(line: Seq<bool>, x: int) -> bool {
    window_is(line, x, pattern_fwd()) || window_is(line, x, pattern_bwd())
}

/// The number of starts below `n` at which a pattern occurs in `line`.
pub open spec fn patterns_below(line: Seq<bool>, n: int) -> int
    decreases n,
{
    if n <= 0 {
        0
    } else {
        patterns_below(line, n - 1) + if pattern_at(line, n - 1) { 1int } else { 0int }
    }
}

/// Occurrences of either pattern in `line`, overlapping ones included.
pub open spec fn pattern_count(line: Seq<bool>) -> int {
    if line.len() >= 11 { patterns_below(line, line.len() - 10) } else { 0 }
}

/// Run-length cost (or, with `finder`, pattern occurrences) summed over the
/// first `k` rows (or columns, when `vertical`) of `m`.
pub open spec fn lines_total(m: Seq<Seq<Cell>>, k: int, vertical: bool, finder: bool) -> int
    decreases k,
{
    if k <= 0 {
        0
    } else {
        lines_total(m, k - 1, vertical, finder) + if finder {
            pattern_count(line_of(m, k - 1, vertical))
        } else {
            run_penalty(line_of(m, k - 1, vertical))
        }
    }
}

/// Whether the 2 by 2 block with corner `(y, x)` is of one colour.
pub open spec fn block_uniform(m: Seq<Seq<Cell>>, y: int, x: int) -> bool {
    let d = cell_dark(m[y][x]);
    cell_dark(m[y + 1][x]) == d && cell_dark(m[y][x + 1]) == d && cell_dark(m[y + 1][x + 1]) == d
}

/// Uniform blocks with corner in row `y` and column below `n`.
pub open spec fn blocks_in_row(m: Seq<Seq<Cell>>, y: int, n: int) -> int
    decreases n,
{
    if n <= 0 {
        0
    } else {
        blocks_in_row(m, y, n - 1) + if block_uniform(m, y, n - 1) { 1int } else { 0int }
    }
}

/// Uniform blocks with corner in a row below `k`, in a grid of side `size`.
pub open spec fn blocks_below(m: Seq<Seq<Cell>>, k: int, size: int) -> int
    decreases k,
{
    if k <= 0 {
        0
    } else {
        blocks_below(m, k - 1, size) + blocks_in_row(m, k - 1, size - 1)
    }
}

/// Dark modules of row `r` in columns below `n`.
pub open spec fn dark_in_row(m: Seq<Seq<Cell>>, r: int, n: int) -> int
    decreases n,
{
    if n <= 0 {
        0
    } else {
        dark_in_row(m, r, n - 1) + if cell_dark(m[r][n - 1]) { 1int } else { 0int }
    }
}

/// Dark modules in rows below `k` of a grid of side `size`.
pub open spec fn dark_below(m: Seq<Seq<Cell>>, k: int, size: int) -> int
    decreases k,
{
    if k <= 0 {
        0
    } else {
        dark_below(m, k - 1, size) + dark_in_row(m, k - 1, size)
    }
}

/// Cost of the share of dark modules: with `p` the truncated percentage,
/// the distance of the nearer multiple of five around `p` from 50, in steps
/// of five, times ten.
pub open spec fn balance_cost(dark: int, total: int) -> int {
    let p = dark * 100 / total;
    let prev = p - p % 5;
    let next = p + (5 - p % 5);
    let a = if prev >= 50 { prev - 50 } else { 50 - prev };
    let b = if next >= 50 { next - 50 } else { 50 - next };
    (if a < b { a } else { b }) / 5 * 10
}

/// Run-length cost of a grid of side `size`: rows, then columns.
pub open spec fn rule_runs(m: Seq<Seq<Cell>>, size: int) -> int {
    lines_total(m, size, false, false) + lines_total(m, size, true, false)
}

/// 2 by 2 block cost of a grid of side `size`: 3 per uniform block.
pub open spec fn rule_blocks(m: Seq<Seq<Cell>>, size: int) -> int {
    3 * blocks_below(m, size - 1, size)
}

/// Finder-like pattern cost of a grid of side `size`: 40 per occurrence.
pub open spec fn rule_patterns(m: Seq<Seq<Cell>>, size: int) -> int {
    40 * (lines_total(m, size, false, true) + lines_total(m, size, true, true))
}

/// Dark-share cost of a grid of side `size`.
pub open spec fn rule_balance(m: Seq<Seq<Cell>>, size: int) -> int {
    balance_cost(dark_below(m, size, size), size * size)
}

/// The total penalty of a grid of side `size`: the four rules summed.
pub open spec fn penalty(m: Seq<Seq<Cell>>, size: int) -> int {
    rule_runs(m, size) + rule_blocks(m, size) + rule_patterns(m, size) + rule_balance(m, size)
}

/// The darkness of row `i` of the grid, or of column `i` when `vertical`.
pub fn line_exec(g: &Grid, i: usize, vertical: bool) -> (r: Vec<bool>)
    requires
        g.wf(),
        i < g.side(),
    ensures
        r@ == line_of(g@, i as int, vertical),
{
    let size = g.size();
    let mut v: Vec<bool> = Vec::new();
    let mut k: usize = 0;
    while k < size
        invariant
            k <= size,
            size == g.side(),
            g.wf(),
            i < size,
            v@.len() == k,
            forall|j: int| 0 <= j < k ==> v@[j] == line_of(g@, i as int, vertical)[j],
        decreases size - k,
    {
        let c = if vertical { g.get(k, i) } else { g.get(i, k) };
        v.push(c.is_dark());
        k = k + 1;
    }
    assert(v@ =~= line_of(g@, i as int, vertical));
    v
}

/// Run-length cost of one line.
pub fn run_penalty_exec(line: &Vec<bool>) -> (r: u64)
    requires
        line@.len() <= 1000,
    ensures
        r == run_penalty(line@),
        r <= line@.len(),
{
    let mut acc: u64 = 0;
    let mut run: u64 = 0;
    let mut i: usize = 0;
    while i < line.len()
        invariant
            i <= line@.len() <= 1000,
            acc + run <= i,
            i == 0 ==> run == 0,
            acc + runs_from(line@, i as int, run as int) == run_penalty(line@),
        decreases line@.len() - i,
    {
        if i > 0 && line[i] == line[i - 1] {
            run = run + 1;
        } else {
            if run >= 5 {
                acc = acc + 3 + (run - 5);
            }
            run = 1;
        }
        i = i + 1;
    }
    if run >= 5 {
        acc = acc + 3 + (run - 5);
    }
    acc
}

/// Whether the eleven modules of `line` from `x` on equal `pat`.
fn window_is_exec(line: &Vec<bool>, x: usize, pat: &[bool; 11]) -> (r: bool)
    requires
        x + 11 <= line@.len() <= 1000,
    ensures
        r == window_is(line@, x as int, pat@),
{
    let mut i: usize = 0;
    while i < 11
        invariant
            i <= 11,
            x + 11 <= line@.len() <= 1000,
            forall|j: int| 0 <= j < i ==> line@[x + j] == pat@[j],
        decreases 11 - i,
    {
        if line[x + i] != pat[i] {
            return false;
        }
        i = i + 1;
    }
    true
}

/// Occurrences of the finder-like pattern, forwards or backwards, in one line.
pub fn pattern_count_exec(line: &Vec<bool>) -> (r: u64)
    requires
        line@.len() <= 1000,
    ensures
        r == pattern_count(line@),
        r <= line@.len(),
{
    if line.len() < 11 {
        return 0;
    }
    let fwd: [bool; 11] = [true, false, true, true, true, false, true, false, false, false, false];
    let bwd: [bool; 11] = [false, false, false, false, true, false, true, true, true, false, true];
    assert(fwd@ == pattern_fwd());
    assert(bwd@ == pattern_bwd());
    let n = line.len() - 10;
    let mut count: u64 = 0;
    let mut x: usize = 0;
    while x < n
        invariant
            x <= n,
            n == line@.len() - 10,
            line@.len() <= 1000,
            fwd@ == pattern_fwd(),
            bwd@ == pattern_bwd(),
            count == patterns_below(line@, x as int),
            count <= x,
        decreases n - x,
    {
        if window_is_exec(line, x, &fwd) || window_is_exec(line, x, &bwd) {
            count = count + 1;
        }
        x = x + 1;
    }
    count
}

/// The sum over all rows (or columns) of the run-length cost or, with
/// `finder`, of the pattern occurrences.
pub fn lines_total_exec(g: &Grid, vertical: bool, finder: bool) -> (r: u64)
    requires
        g.wf(),
    ensures
        r == lines_total(g@, g.side() as int, vertical, finder),
        r <= g.side() * 1000,
{
    let size = g.size();
    let mut acc: u64 = 0;
    let mut k: usize = 0;
    while k < size
        invariant
            k <= size,
            size == g.side(),
            g.wf(),
            acc == lines_total(g@, k as int, vertical, finder),
            acc <= k * 1000,
        decreases size - k,
    {
        let line = line_exec(g, k, vertical);
        let v = if finder { pattern_count_exec(&line) } else { run_penalty_exec(&line) };
        acc = acc + v;
        k = k + 1;
    }
    acc
}

/// The number of uniform 2 by 2 blocks of the grid.
pub fn blocks_exec(g: &Grid) -> (r: u64)
    requires
        g.wf(),
        g.side() >= 1,
    ensures
        r == blocks_below(g@, g.side() - 1, g.side() as int),
        r <= g.side() * 1000,
{
    let size = g.size();
    let mut acc: u64 = 0;
    let mut y: usize = 0;
    while y + 1 < size
        invariant
            y + 1 <= size,
            size == g.side(),
            g.wf(),
            acc == blocks_below(g@, y as int, size as int),
            acc <= y * 1000,
        decreases size - y,
    {
        let mut row: u64 = 0;
        let mut x: usize = 0;
        while x + 1 < size
            invariant
                y + 1 < size,
                x + 1 <= size,
                size == g.side(),
                g.wf(),
                row == blocks_in_row(g@, y as int, x as int),
                row <= x,
            decreases size - x,
        {
            let d = g.get(y, x).is_dark();
            if g.get(y + 1, x).is_dark() == d && g.get(y, x + 1).is_dark() == d && g.get(
                y + 1,
                x + 1,
            ).is_dark() == d {
                row = row + 1;
            }
            x = x + 1;
        }
        acc = acc + row;
        y = y + 1;
    }
    acc
}

/// The number of dark modules of the grid.
pub fn dark_exec(g: &Grid) -> (r: u64)
    requires
        g.wf(),
    ensures
        r == dark_below(g@, g.side() as int, g.side() as int),
        r <= g.side() * g.side(),
{
    let size = g.size();
    let mut acc: u64 = 0;
    let mut y: usize = 0;
    while y < size
        invariant
            y <= size,
            size == g.side(),
            g.wf(),
            acc == dark_below(g@, y as int, size as int),
            acc <= y * size,
        decreases size - y,
    {
        let mut row: u64 = 0;
        let mut x: usize = 0;
        while x < size
            invariant
                y < size,
                x <= size,
                size == g.side(),
                g.wf(),
                row == dark_in_row(g@, y as int, x as int),
                row <= x,
            decreases size - x,
        {
            if g.get(y, x).is_dark() {
                row = row + 1;
            }
            x = x + 1;
        }
        assert(acc + row <= (y + 1) * size <= 1_000_000) by (nonlinear_arith)
            requires
                acc <= y * size,
                row <= size,
                y < size <= 1000,
        ;
        acc = acc + row;
        y = y + 1;
    }
    acc
}

/// Cost of the share of dark modules among `total`.
pub fn balance_cost_exec(dark: u64, total: u64) -> (r: u64)
    requires
        total > 0,
        dark <= total,
        total <= 1_000_000,
    ensures
        r == balance_cost(dark as int, total as int),
{
    let p: u64 = dark * 100 / total;
    let prev: u64 = p - p % 5;
    let next: u64 = p + (5 - p % 5);
    let a: u64 = if prev >= 50 { prev - 50 } else { 50 - prev };
    let b: u64 = if next >= 50 { next - 50 } else { 50 - next };
    (if a < b { a } else { b }) / 5 * 10
}

/// The total penalty of a grid: the four rules summed.
pub fn penalty_exec(g: &Grid) -> (r: u64)
    requires
        g.wf(),
        g.side() >= 1,
    ensures
        r == penalty(g@, g.side() as int),
{
    let size = g.size();
    let runs = lines_total_exec(g, false, false) + lines_total_exec(g, true, false);
    let blocks = 3 * blocks_exec(g);
    let patterns = 40 * (lines_total_exec(g, false, true) + lines_total_exec(g, true, true));
    let dark = dark_exec(g);
    assert(size * size <= 1_000_000 && size * size > 0) by (nonlinear_arith)
        requires
            1 <= size <= 1000,
    ;
    let total: u64 = (size * size) as u64;
    assert(dark <= g.side() * g.side());
    assert(total == g.side() * g.side());
    let balance = balance_cost_exec(dark, total);
    runs + blocks + patterns + balance
}

} // verus!
