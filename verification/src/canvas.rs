//! Bounds-checked primitives for the character canvas.
//!
//! A canvas is a mutable grid of characters, row-major, origin at the top
//! left.  Writes outside the grid are dropped silently (the diagram is
//! viewport-limited, so clipping is the intended behaviour, never an error).

use vstd::prelude::*;

verus! {

/// Every row of `g` has the same length as the corresponding row of `f`,
/// and both grids have the same number of rows.
pub open spec fn same_dims(a: Seq<Seq<char>>, b: Seq<Seq<char>>) -> bool {
    &&& b.len() == a.len()
    &&& forall|r: int| 0 <= r < a.len() ==> (#[trigger] b[r]).len() == a[r].len()
}

/// The grid that results from writing `ch` at column `x` of row `y`,
/// or `g` unchanged when the coordinate lies outside the grid.
pub open spec fn put_spec(g: Seq<Seq<char>>, x: int, y: int, ch: char) -> Seq<Seq<char>> {
    if 0 <= y < g.len() && 0 <= x < g[y].len() {
        g.update(y, g[y].update(x, ch))
    } else {
        g
    }
}

/// Write `ch` at column `x` of row `y`; out-of-bounds writes are dropped.
pub fn put_cell(canvas: &mut Vec<Vec<char>>, x: usize, y: usize, ch: char)
    ensures
        final(canvas).deep_view() == put_spec(old(canvas).deep_view(), x as int, y as int, ch),
{
    if y < canvas.len() && x < canvas[y].len() {
        canvas[y][x] = ch;
        assert(canvas.deep_view() =~~= put_spec(old(canvas).deep_view(), x as int, y as int, ch));
    } else {
        assert(canvas.deep_view() =~~= put_spec(old(canvas).deep_view(), x as int, y as int, ch));
    }
}

/// Read the character at column `x` of row `y`; `None` outside the grid.
pub fn read_cell(canvas: &Vec<Vec<char>>, x: usize, y: usize) -> (r: Option<char>)
    ensures
        r == (if 0 <= y < canvas.deep_view().len() && 0 <= x < canvas.deep_view()[y as int].len() {
            Some(canvas.deep_view()[y as int][x as int])
        } else {
            None::<char>
        }),
{
    if y < canvas.len() && x < canvas[y].len() {
        Some(canvas[y][x])
    } else {
        None
    }
}

} // verus!
