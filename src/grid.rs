use array2d::Array2D;
use vstd::prelude::*;

verus! {

/// The state of one module of a symbol under construction.
#[derive(Clone, Copy, Debug, PartialEq, Eq, Structural)]
pub enum Cell {
    /// Not assigned yet; exists only while modules are being placed.
    Unwritten,
    /// A fixed light module that masking leaves alone.
    ReservedLight,
    /// A fixed dark module that masking leaves alone.
    ReservedDark,
    /// A light payload module that a mask may invert.
    DataLight,
    /// A dark payload module that a mask may invert.
    DataDark,
    /// A placeholder for a bit of format information.
    FormatReserved,
}

/// Whether a cell reads as a dark module.
pub open spec fn cell_dark(c: Cell) -> bool {
    c == Cell::ReservedDark || c == Cell::DataDark
}

/// Whether a cell holds payload that a mask may invert.
pub open spec fn cell_data(c: Cell) -> bool {
    c == Cell::DataLight || c == Cell::DataDark
}

/// Whether a cell is one of the fixed structural modules or a format placeholder.
pub open spec fn cell_reserved(c: Cell) -> bool {
    c == Cell::ReservedLight || c == Cell::ReservedDark || c == Cell::FormatReserved
}

impl Cell {
    /// Whether this cell reads as a dark module.
    pub fn is_dark(&self) -> (r: bool)
        ensures
            r == cell_dark(*self),
    {
        match self {
            Cell::ReservedDark | Cell::DataDark => true,
            _ => false,
        }
    }
}

#[verifier::external_type_specification]
#[verifier::external_body]
#[verifier::reject_recursive_types(T)]
pub struct ExArray2D<T>(Array2D<T>);

/// The rows of an `Array2D` of cells, as `Array2D::as_rows` lists them.
pub uninterp spec fn rows_of(a: Array2D<Cell>) -> Seq<Seq<Cell>>;

/// A `rows` by `cols` matrix whose every entry is `c`.
pub open spec fn filled(c: Cell, rows: nat, cols: nat) -> Seq<Seq<Cell>> {
    Seq::new(rows, |_i: int| Seq::new(cols, |_j: int| c))
}

/// Relies on `Array2D::filled_with`: `rows` rows of `cols` copies of `c`.
#[verifier::external_body]
fn array_filled(c: Cell, rows: usize, cols: usize) -> (r: Array2D<Cell>)
    requires
        rows * cols <= usize::MAX,
    ensures
        rows_of(r) == filled(c, rows as nat, cols as nat),
{
    Array2D::filled_with(c, rows, cols)
}

/// Relies on `Index<(usize, usize)>` of `Array2D`: the entry at a row and a
/// column, which are in bounds.
#[verifier::external_body]
fn array_get(a: &Array2D<Cell>, row: usize, col: usize) -> (r: Cell)
    requires
        row < rows_of(*a).len(),
        col < rows_of(*a)[row as int].len(),
    ensures
        r == rows_of(*a)[row as int][col as int],
{
    a[(row, col)]
}

/// Relies on `IndexMut<(usize, usize)>` of `Array2D`: only the entry at a row
/// and a column, which are in bounds, changes.
#[verifier::external_body]
fn array_set(a: &mut Array2D<Cell>, row: usize, col: usize, c: Cell)
    requires
        row < rows_of(*old(a)).len(),
        col < rows_of(*old(a))[row as int].len(),
    ensures
        rows_of(*final(a)) == rows_of(*old(a)).update(
            row as int,
            rows_of(*old(a))[row as int].update(col as int, c),
        ),
{
    a[(row, col)] = c;
}

/// Relies on the `Clone` of `Array2D`: an equal array.
#[verifier::external_body]
fn array_copy(a: &Array2D<Cell>) -> (r: Array2D<Cell>)
    ensures
        rows_of(r) == rows_of(*a),
{
    a.clone()
}

/// A square matrix of cells.
pub struct Grid {
    size: usize,
    cells: Array2D<Cell>,
}

impl View for Grid {
    type V = Seq<Seq<Cell>>;

    closed spec fn view(&self) -> Seq<Seq<Cell>> {
        rows_of(self.cells)
    }
}

/// Whether `m` is a square matrix of side `n`.
pub open spec fn is_square(m: Seq<Seq<Cell>>, n: nat) -> bool {
    &&& m.len() == n
    &&& forall|r: int| 0 <= r < n ==> #[trigger] m[r].len() == n
}

impl Grid {
    /// The side of the grid.
    pub closed spec fn side(&self) -> nat {
        self.size as nat
    }

    /// The grid's rows form a square of its side, small enough that any
    /// index arithmetic on it stays far from overflow.
    pub open spec fn wf(&self) -> bool {
        &&& is_square(self@, self.side())
        &&& self.side() <= 1000
    }

    /// A grid of side `size` whose every cell is `c`.
    pub fn filled_with(c: Cell, size: usize) -> (g: Grid)
        requires
            size <= 1000,
        ensures
            g.wf(),
            g.side() == size,
            g@ == filled(c, size as nat, size as nat),
    {
        assert(size * size <= usize::MAX) by (nonlinear_arith)
            requires
                size <= 1000,
        ;
        Grid { size, cells: array_filled(c, size, size) }
    }

    /// The side of the grid.
    pub fn size(&self) -> (r: usize)
        ensures
            r == self.side(),
    {
        self.size
    }

    /// The cell at a row and a column.
    pub fn get(&self, row: usize, col: usize) -> (r: Cell)
        requires
            self.wf(),
            row < self.side(),
            col < self.side(),
        ensures
            r == self@[row as int][col as int],
    {
        array_get(&self.cells, row, col)
    }

    /// Replaces the cell at a row and a column.
    pub fn set(&mut self, row: usize, col: usize, c: Cell)
        requires
            old(self).wf(),
            row < old(self).side(),
            col < old(self).side(),
        ensures
            final(self).wf(),
            final(self).side() == old(self).side(),
            final(self)@ == old(self)@.update(row as int, old(self)@[row as int].update(col as int, c)),
    {
        array_set(&mut self.cells, row, col, c);
        assert forall|r: int| 0 <= r < self.side() implies #[trigger] self@[r].len() == self.side() by {
            assert(old(self)@[r].len() == self.side());
        }
    }

    /// An independent copy of the grid.
    pub fn copy(&self) -> (g: Grid)
        ensures
            g@ == self@,
            g.side() == self.side(),
    {
        Grid { size: self.size, cells: array_copy(&self.cells) }
    }
}

} // verus!
