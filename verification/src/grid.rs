//! The program grid and bounds-checked neighbor resolution.
//!
//! A program is an ordered sequence of rows, each an ordered sequence of
//! characters; rows may differ in length. Cells are addressed by zero-based
//! (row, column), and any out-of-range access yields "absent" rather than an
//! error.

use vstd::prelude::*;

verus! {

/// One unit of pending work: a grid cell's character together with its
/// coordinates. Two operations are equal iff both the character and the
/// position match; the pair is also the deduplication key.
#[derive(Clone, Copy, PartialEq, Eq, Structural, Debug)]
pub struct Operation {
    pub op: char,
    pub row: usize,
    pub col: usize,
}

/// Mathematical view of a grid: the rows' character sequences, in order.
pub open spec fn grid_view(g: Seq<Vec<char>>) -> Seq<Seq<char>> {
    Seq::new(g.len(), |i: int| g[i]@)
}

/// The character at (r, c), or `None` when the coordinates fall outside the
/// grid — negative coordinates, coordinates no machine index reaches, rows
/// past the last, and columns past the end of their row are all absent.
pub open spec fn cell_at(g: Seq<Seq<char>>, r: int, c: int) -> Option<char> {
    if 0 <= r <= usize::MAX && 0 <= c <= usize::MAX && r < g.len() && c < g[r].len() {
        Option::Some(g[r][c])
    } else {
        Option::None
    }
}

/// The operations created for the cell at (r, c): a singleton when the cell
/// exists, empty when it is absent.
pub open spec fn unit_ops(g: Seq<Seq<char>>, r: int, c: int) -> Seq<Operation> {
    if 0 <= r <= usize::MAX && 0 <= c <= usize::MAX && r < g.len() && c < g[r].len() {
        seq![Operation { op: g[r][c], row: r as usize, col: c as usize }]
    } else {
        Seq::empty()
    }
}

/// Cardinal propagation targets of (r, c): north, west, east, south, in that
/// fixed order, each omitted when absent.
pub open spec fn cardinal_ops(g: Seq<Seq<char>>, r: int, c: int) -> Seq<Operation> {
    unit_ops(g, r - 1, c) + unit_ops(g, r, c - 1) + unit_ops(g, r, c + 1) + unit_ops(g, r + 1, c)
}

/// Horizontal propagation targets of (r, c): west then east.
pub open spec fn horizontal_ops(g: Seq<Seq<char>>, r: int, c: int) -> Seq<Operation> {
    unit_ops(g, r, c - 1) + unit_ops(g, r, c + 1)
}

/// Vertical propagation targets of (r, c): north then south.
pub open spec fn vertical_ops(g: Seq<Seq<char>>, r: int, c: int) -> Seq<Operation> {
    unit_ops(g, r - 1, c) + unit_ops(g, r + 1, c)
}

/// A present cell's single unit of work, named.
pub proof fn lemma_unit_ops_single(g: Seq<Seq<char>>, r: int, c: int, o: Operation)
    requires
        0 <= r && r <= usize::MAX,
        0 <= c && c <= usize::MAX,
        r < g.len(),
        c < g[r].len(),
        o == (Operation { op: g[r][c], row: r as usize, col: c as usize }),
    ensures
        unit_ops(g, r, c) == seq![o],
{
    assert(unit_ops(g, r, c) =~= seq![o]);
}

/// Appending one element is concatenation with a singleton.
pub proof fn lemma_push_is_concat(q: Seq<Operation>, o: Operation)
    ensures
        q.push(o) == q + seq![o],
{
    assert(q.push(o) =~= q + seq![o]);
}

/// Concatenating nothing changes nothing.
pub proof fn lemma_concat_empty(q: Seq<Operation>)
    ensures
        q + Seq::<Operation>::empty() == q,
{
    assert(q + Seq::<Operation>::empty() =~= q);
}

/// Bounds-checked cell lookup; total, and absent outside the grid.
pub fn lookup(g: &Vec<Vec<char>>, r: usize, c: usize) -> (o: Option<char>)
    ensures
        o == cell_at(grid_view(g@), r as int, c as int),
{
    if r < g.len() {
        let row: &Vec<char> = &g[r];
        if c < row.len() {
            Some(row[c])
        } else {
            None
        }
    } else {
        None
    }
}

/// Neighbor lookups outside the grid are absent, never an error: the spec-level
/// lookup yields `None` for every coordinate pair that is negative, at or past
/// the last row, or at or past the end of its row.
pub proof fn lemma_cell_absent_outside(g: Seq<Seq<char>>, r: int, c: int)
    requires
        r < 0 || c < 0 || r >= g.len() || (0 <= r < g.len() && c >= g[r].len()),
    ensures
        cell_at(g, r, c) is None,
        unit_ops(g, r, c) == Seq::<Operation>::empty(),
{
}

} // verus!
