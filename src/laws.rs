use crate::encoder::{
    capacity, data_codewords, data_codewords_len, parity_codewords, total_codewords, valid_version,
    version_for,
};
use crate::grid::{is_square, Cell};
use crate::mask::{candidate, format_col, format_row, is_best_mask, masked, MASK_COUNT};
use crate::penalty::{balance_cost, run_penalty, run_cost, runs_from};
use crate::placement::{placed, side_of};
use crate::qr::encodes;
use vstd::prelude::*;

verus! {

/// A message shorter than the capacity of version 1 gets a 21 by 21
/// symbol; one from that capacity up to below the capacity of version 2
/// gets a 25 by 25 symbol.
pub proof fn lemma_side_by_length(len: int)
    requires
        0 <= len,
    ensures
        len < capacity(1) ==> version_for(len) == Some(1int) && side_of(1) == 21,
        capacity(1) <= len < capacity(2) ==> version_for(len) == Some(2int) && side_of(2) == 25,
        len >= capacity(2) ==> version_for(len) is None,
{
}

/// Whatever the message, its data codewords number exactly the version's
/// codewords less its parity codewords.
pub proof fn lemma_data_length(msg: Seq<u8>, v: int)
    requires
        valid_version(v),
    ensures
        data_codewords(msg, data_codewords_len(v) as nat).len() == total_codewords(v) - parity_codewords(v),
{
}

/// Whether no cell of `m` is unwritten.
pub open spec fn all_written(m: Seq<Seq<Cell>>) -> bool {
    forall|r: int, c: int| 0 <= r < m.len() && 0 <= c < m[r].len() ==> #[trigger] m[r][c] != Cell::Unwritten
}

/// After the payload is placed no cell is unwritten, and masking and format
/// information leave none either.
pub proof fn lemma_no_unwritten(m: Seq<Seq<Cell>>, payload: Seq<u8>, size: int, k: int)
    requires
        is_square(placed(m, payload, size), size as nat),
        size > 8,
    ensures
        all_written(placed(m, payload, size)),
        all_written(candidate(placed(m, payload, size), k)),
{
    let p = placed(m, payload, size);
    let q = masked(p, k);
    assert(all_written(q));
    let f = format_row(q, k);
    assert(all_written(f));
    assert(is_square(f, size as nat));
    let g = format_col(f, k);
    assert forall|r: int, c: int| 0 <= r < g.len() && 0 <= c < g[r].len() implies #[trigger] g[r][c]
        != Cell::Unwritten by {
        assert(f[r].len() == size);
    }
}

/// The mask of lowest penalty, the first on a tie, is unique.
pub proof fn lemma_best_mask_unique(m: Seq<Seq<Cell>>, size: int, a: int, b: int)
    requires
        is_best_mask(m, size, a),
        is_best_mask(m, size, b),
    ensures
        a == b,
{
    if a < b {
        assert(crate::penalty::penalty(candidate(m, b), size) < crate::penalty::penalty(candidate(m, a), size));
    } else if b < a {
        assert(crate::penalty::penalty(candidate(m, a), size) < crate::penalty::penalty(candidate(m, b), size));
    }
}

/// Encoding is deterministic: one message has one mask and one symbol.
pub proof fn lemma_encoding_deterministic(
    msg: Seq<u8>,
    mask1: int,
    grid1: Seq<Seq<Cell>>,
    mask2: int,
    grid2: Seq<Seq<Cell>>,
)
    requires
        encodes(msg, mask1, grid1),
        encodes(msg, mask2, grid2),
    ensures
        mask1 == mask2,
        grid1 == grid2,
{
    let v = version_for(msg.len() as int).unwrap();
    lemma_best_mask_unique(crate::qr::unmasked_symbol(msg, v), side_of(v), mask1, mask2);
}

proof fn lemma_uniform_runs(line: Seq<bool>, i: int)
    requires
        1 <= i <= line.len(),
        forall|j: int| 0 <= j < line.len() ==> #[trigger] line[j] == line[0],
    ensures
        runs_from(line, i, i) == run_cost(line.len() as int),
    decreases line.len() - i,
{
    if i < line.len() {
        lemma_uniform_runs(line, i + 1);
    }
}

/// A line of at least five modules of one colour costs exactly
/// `3 + (len - 5)` under the run-length rule.
pub proof fn lemma_uniform_line_cost(line: Seq<bool>)
    requires
        line.len() >= 5,
        forall|j: int| 0 <= j < line.len() ==> #[trigger] line[j] == line[0],
    ensures
        run_penalty(line) == 3 + (line.len() - 5),
{
    lemma_uniform_runs(line, 1);
}

/// A grid whose modules are exactly half dark costs nothing under the
/// dark-share rule.
pub proof fn lemma_half_dark_costs_nothing(dark: int, total: int)
    requires
        total > 0,
        2 * dark == total,
    ensures
        balance_cost(dark, total) == 0,
{
    assert(dark * 100 == 50 * total);
    assert((50 * total) / total == 50) by (nonlinear_arith)
        requires
            total > 0,
    ;
}

} // verus!
