use vstd::prelude::*;

verus! {

/// A cell position on screen or in the chat history.
///
/// The fields are declared row first so that the derived `Ord` is the
/// row-major order that `partial_cmp` states.
#[derive(Clone, Copy, Debug, PartialEq, Eq, Structural, Ord)]
pub struct Point {
    pub row: usize,
    pub column: usize,
}

/// Row-major order: `p` comes no later than `q`.
pub open spec fn point_le(p: Point, q: Point) -> bool {
    p.row < q.row || (p.row == q.row && p.column <= q.column)
}

pub open spec fn point_min(p: Point, q: Point) -> Point {
    if point_le(p, q) { p } else { q }
}

pub open spec fn point_max(p: Point, q: Point) -> Point {
    if point_le(p, q) { q } else { p }
}

pub open spec fn point_order(p: Point, q: Point) -> core::cmp::Ordering {
    if p.row < q.row {
        core::cmp::Ordering::Less
    } else if p.row > q.row {
        core::cmp::Ordering::Greater
    } else if p.column < q.column {
        core::cmp::Ordering::Less
    } else if p.column > q.column {
        core::cmp::Ordering::Greater
    } else {
        core::cmp::Ordering::Equal
    }
}

impl Point {
    pub fn new(column: usize, row: usize) -> (r: Point)
        ensures
            r.column == column,
            r.row == row,
    {
        Point { row, column }
    }

    /// The same point `shift` rows further down.
    pub fn shift_row(&self, shift: usize) -> (r: Point)
        requires
            self.row + shift <= usize::MAX,
        ensures
            r.column == self.column,
            r.row == self.row + shift,
    {
        Point { column: self.column, row: self.row + shift }
    }

    /// The earlier of two points in row-major order.
    pub fn lesser(a: Point, b: Point) -> (r: Point)
        ensures
            r == point_min(a, b),
    {
        if a.row < b.row || (a.row == b.row && a.column <= b.column) {
            a
        } else {
            b
        }
    }

    /// The later of two points in row-major order.
    pub fn greater(a: Point, b: Point) -> (r: Point)
        ensures
            r == point_max(a, b),
    {
        if a.row < b.row || (a.row == b.row && a.column <= b.column) {
            b
        } else {
            a
        }
    }
}

impl PartialOrd for Point {
    fn partial_cmp(&self, other: &Point) -> (r: Option<core::cmp::Ordering>) {
        if self.row < other.row {
            Some(core::cmp::Ordering::Less)
        } else if self.row > other.row {
            Some(core::cmp::Ordering::Greater)
        } else if self.column < other.column {
            Some(core::cmp::Ordering::Less)
        } else if self.column > other.column {
            Some(core::cmp::Ordering::Greater)
        } else {
            Some(core::cmp::Ordering::Equal)
        }
    }
}

impl vstd::std_specs::cmp::PartialOrdSpecImpl for Point {
    open spec fn obeys_partial_cmp_spec() -> bool {
        true
    }

    open spec fn partial_cmp_spec(&self, other: &Point) -> Option<core::cmp::Ordering> {
        Some(point_order(*self, *other))
    }
}

/// Normalising a selection never inverts it: the start of a pair of points
/// comes no later than its end, whichever order they were given in.
pub proof fn lemma_min_le_max(p: Point, q: Point)
    ensures
        point_le(point_min(p, q), point_max(p, q)),
        point_min(p, q) == point_min(q, p),
        point_max(p, q) == point_max(q, p),
{
}

/// Moving two points down by the same number of rows keeps their order.
pub proof fn lemma_shift_row_keeps_order(p: Point, q: Point, n: usize)
    requires
        p.row + n <= usize::MAX,
        q.row + n <= usize::MAX,
    ensures
        point_le(p, q) <==> point_le(
            Point { row: (p.row + n) as usize, column: p.column },
            Point { row: (q.row + n) as usize, column: q.column },
        ),
{
}

} // verus!
