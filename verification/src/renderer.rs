//! Widget-style diagram rendering onto the character canvas.
//!
//! `DiagramRenderer` maps every entity's layout position into a rectangle
//! of the drawing area, paints a bordered widget for it -- title in the
//! top border, one row per column with a key-indicator prefix -- and then
//! routes each relationship as an orthogonal line between the two
//! columns' rows, stepping around every entity's rectangle and finishing
//! with an arrowhead at the referenced end.

use vstd::prelude::*;

use crate::builder::Rect;
use crate::canvas::{put_cell, same_dims};
use crate::models::{Column, Entity, Schema};

verus! {

/// Largest layout coordinate accepted when mapping positions into the
/// drawing area.
pub const POSITION_LIMIT: i64 = 1_000_000;

/// Whether `(x, y)` lies inside rectangle `a`, borders included.
pub open spec fn rect_contains(a: Rect, x: int, y: int) -> bool {
    a.x <= x < a.x + a.width && a.y <= y < a.y + a.height
}

/// Whether `(x, y)` lies inside some rectangle of `areas`.
pub open spec fn hits_any(areas: Seq<Rect>, x: int, y: int) -> bool {
    exists|i: int| 0 <= i < areas.len() && rect_contains(#[trigger] areas[i], x, y)
}

/// The glyphs relationship lines may put on the canvas: straight fill,
/// corners, crossing, and arrowheads.
pub open spec fn is_line_glyph(ch: char) -> bool {
    ||| ch == '\u{2500}'
    ||| ch == '\u{2502}'
    ||| ch == '\u{250c}'
    ||| ch == '\u{2510}'
    ||| ch == '\u{2514}'
    ||| ch == '\u{2518}'
    ||| ch == '\u{253c}'
    ||| ch == '\u{25c4}'
    ||| ch == '\u{25ba}'
    ||| ch == '\u{25b2}'
    ||| ch == '\u{25bc}'
}

/// Grid `b` is grid `a` with relationship lines overlaid: dimensions
/// kept, every entity rectangle untouched, every changed cell holding a
/// line glyph.
pub open spec fn lines_overlay(a: Seq<Seq<char>>, b: Seq<Seq<char>>, areas: Seq<Rect>) -> bool {
    &&& same_dims(a, b)
    &&& forall|r: int, c: int| 0 <= r < a.len() && 0 <= c < a[r].len() && hits_any(areas, c, r)
        ==> #[trigger] b[r][c] == a[r][c]
    &&& forall|r: int, c: int| 0 <= r < a.len() && 0 <= c < a[r].len() && b[r][c] != a[r][c]
        ==> is_line_glyph(#[trigger] b[r][c])
}

/// Line overlays compose.
proof fn lemma_lines_overlay_trans(
    a: Seq<Seq<char>>,
    b: Seq<Seq<char>>,
    c: Seq<Seq<char>>,
    areas: Seq<Rect>,
)
    requires
        lines_overlay(a, b, areas),
        lines_overlay(b, c, areas),
    ensures
        lines_overlay(a, c, areas),
{
    assert forall|r: int, col: int|
        0 <= r < a.len() && 0 <= col < a[r].len() && c[r][col] != a[r][col]
        implies is_line_glyph(#[trigger] c[r][col]) by {
        if c[r][col] == b[r][col] {
            assert(b[r][col] != a[r][col]);
        }
    }
}

/// What a cell holding `old` comes to hold once the horizontal run of
/// row `y` between columns `x0` and `x1` is drawn: fill wherever the
/// cell is in the run, outside every entity rectangle and inside the
/// drawing area.
pub open spec fn hline_cell(
    old: char,
    areas: Seq<Rect>,
    x0: int,
    x1: int,
    y: int,
    area: Rect,
    c: int,
    r: int,
) -> char {
    if r == y && min_int(x0, x1) <= c <= max_int(x0, x1) && !hits_any(areas, c, r)
        && c < area.x + area.width && r < area.y + area.height {
        '\u{2500}'
    } else {
        old
    }
}

/// The vertical counterpart of `hline_cell`.
pub open spec fn vline_cell(
    old: char,
    areas: Seq<Rect>,
    y0: int,
    y1: int,
    x: int,
    area: Rect,
    c: int,
    r: int,
) -> char {
    if c == x && min_int(y0, y1) <= r <= max_int(y0, y1) && !hits_any(areas, c, r)
        && c < area.x + area.width && r < area.y + area.height {
        '\u{2502}'
    } else {
        old
    }
}

/// What a cell holding `old` comes to hold once the arrowhead at `tip`
/// for an approach from `from` is drawn.
pub open spec fn arrow_cell(
    old: char,
    areas: Seq<Rect>,
    tip: (int, int),
    from: (int, int),
    area: Rect,
    c: int,
    r: int,
) -> char {
    if r == tip.1 && c == tip.0 && !hits_any(areas, c, r) && c < area.x + area.width
        && r < area.y + area.height {
        arrow_glyph_for(from.0 - tip.0, from.1 - tip.1)
    } else {
        old
    }
}

/// Arrowhead glyph for an approach offset: points away from the
/// approach.
pub open spec fn arrow_glyph_for(dx: int, dy: int) -> char {
    if abs_int(dx) > abs_int(dy) {
        if dx > 0 { '\u{25c4}' } else { '\u{25ba}' }
    } else {
        if dy > 0 { '\u{25b2}' } else { '\u{25bc}' }
    }
}

/// The fill glyph for a travel direction: horizontal when that axis
/// dominates, vertical otherwise.  The alphabet is orthogonal only.
pub open spec fn line_glyph_for(dx: int, dy: int) -> char {
    if abs_int(dx) > abs_int(dy) {
        '\u{2500}'
    } else {
        '\u{2502}'
    }
}

/// Absolute value.
pub open spec fn abs_int(v: int) -> int {
    if v >= 0 {
        v
    } else {
        -v
    }
}

/// The sign of `v`: `-1`, `0` or `1`.
pub open spec fn sgn(v: int) -> int {
    if v > 0 {
        1
    } else if v < 0 {
        -1
    } else {
        0
    }
}

/// The corner glyph joining an approach of direction `(dx1, dy1)` with a
/// departure of direction `(dx2, dy2)`, by sign pattern; direction pairs
/// outside the eight orthogonal turns get a crossing glyph.
pub open spec fn corner_char_for(dx1: int, dy1: int, dx2: int, dy2: int) -> char {
    let s = (sgn(dx1), sgn(dy1), sgn(dx2), sgn(dy2));
    if s == (1int, 0int, 0int, 1int) {
        '\u{2510}'
    } else if s == (1int, 0int, 0int, -1int) {
        '\u{2518}'
    } else if s == (-1int, 0int, 0int, 1int) {
        '\u{250c}'
    } else if s == (-1int, 0int, 0int, -1int) {
        '\u{2514}'
    } else if s == (0int, 1int, 1int, 0int) {
        '\u{2514}'
    } else if s == (0int, 1int, -1int, 0int) {
        '\u{2518}'
    } else if s == (0int, -1int, 1int, 0int) {
        '\u{250c}'
    } else if s == (0int, -1int, -1int, 0int) {
        '\u{2510}'
    } else {
        '\u{253c}'
    }
}

/// Index of the first column named `name`, or zero when none is.
pub open spec fn column_index_or_zero(cs: Seq<Column>, name: Seq<char>) -> int
    decreases cs.len(),
{
    if cs.len() == 0 {
        0
    } else if cs[0].name@ == name {
        0
    } else {
        let rest = column_index_or_zero(cs.drop_first(), name);
        if rest == 0 && !(exists|j: int| 0 <= j < cs.len() && (#[trigger] cs[j]).name@ == name) {
            0
        } else {
            rest + 1
        }
    }
}

/// Number of cells a direct line steps through: the larger axis
/// distance.
pub open spec fn direct_steps(fx: int, fy: int, tx: int, ty: int) -> int {
    max_int(abs_int(tx - fx), abs_int(ty - fy))
}

/// The `i`-th cell of the direct line: both axes interpolated in
/// proportion to the step count.
pub open spec fn direct_point(fx: int, fy: int, tx: int, ty: int, i: int) -> (int, int) {
    let steps = direct_steps(fx, fy, tx, ty);
    let ox = i * abs_int(tx - fx) / steps;
    let oy = i * abs_int(ty - fy) / steps;
    (
        if tx >= fx { fx + ox } else { fx - ox },
        if ty >= fy { fy + oy } else { fy - oy },
    )
}

/// Whether the direct line steps through `(c, r)` within its first
/// `bound` steps.
pub open spec fn direct_visited_upto(fx: int, fy: int, tx: int, ty: int, c: int, r: int, bound: int) -> bool {
    exists|i: int| 0 <= i < bound && direct_point(fx, fy, tx, ty, i) == (c, r)
}

/// What a cell holding `old` comes to hold once the direct line from
/// `(fx, fy)` to `(tx, ty)` is drawn: the direction's fill glyph on
/// every stepped-through cell outside the entity rectangles and inside
/// the drawing area.
pub open spec fn direct_cell(
    old: char,
    areas: Seq<Rect>,
    fx: int,
    fy: int,
    tx: int,
    ty: int,
    area: Rect,
    c: int,
    r: int,
) -> char {
    let steps = direct_steps(fx, fy, tx, ty);
    if steps > 0 && direct_visited_upto(fx, fy, tx, ty, c, r, steps + 1)
        && !hits_any(areas, c, r) && c < area.x + area.width && r < area.y + area.height {
        line_glyph_for(tx - fx, ty - fy)
    } else {
        old
    }
}

/// The midpoint of an axis run, rounded towards the starting point.
pub open spec fn midpoint(a: int, b: int) -> int {
    if b >= a {
        a + (b - a) / 2
    } else {
        a - (a - b) / 2
    }
}

/// What a cell holding `old` comes to hold once the corner at `corner`
/// joining the travel `from -> corner -> to` is drawn -- when the turn
/// is `active` at all; the drawing area clips.
pub open spec fn corner_stage_cell(
    old: char,
    corner: (int, int),
    from: (int, int),
    to: (int, int),
    area: Rect,
    c: int,
    r: int,
    active: bool,
) -> char {
    if active && r == corner.1 && c == corner.0 && corner.0 < area.x + area.width
        && corner.1 < area.y + area.height {
        corner_char_for(corner.0 - from.0, corner.1 - from.1, to.0 - corner.0, to.1 - corner.1)
    } else {
        old
    }
}

/// What a cell holding `old` comes to hold once the three-segment route
/// from `(fx, fy)` to `(tx, ty)` is drawn: the dominant axis first, a
/// perpendicular jog at the midpoint, the dominant axis again, then the
/// two corner glyphs wherever segments of nonzero length meet outside
/// the entity rectangles.
pub open spec fn three_seg_cell(
    old: char,
    areas: Seq<Rect>,
    fx: int,
    fy: int,
    tx: int,
    ty: int,
    area: Rect,
    c: int,
    r: int,
) -> char {
    let dx = tx - fx;
    let dy = ty - fy;
    if abs_int(dx) > abs_int(dy) {
        let mx = midpoint(fx, tx);
        let g1 = if fx != mx { hline_cell(old, areas, fx, mx, fy, area, c, r) } else { old };
        let g2 = if fy != ty { vline_cell(g1, areas, fy, ty, mx, area, c, r) } else { g1 };
        let g3 = if mx != tx { hline_cell(g2, areas, mx, tx, ty, area, c, r) } else { g2 };
        let g4 = corner_stage_cell(g3, (mx, fy), (fx, fy), (mx, ty), area, c, r,
            fx != mx && fy != ty && !hits_any(areas, mx, fy));
        corner_stage_cell(g4, (mx, ty), (mx, fy), (tx, ty), area, c, r,
            fy != ty && mx != tx && !hits_any(areas, mx, ty))
    } else {
        let my = midpoint(fy, ty);
        let g1 = if fy != my { vline_cell(old, areas, fy, my, fx, area, c, r) } else { old };
        let g2 = if fx != tx { hline_cell(g1, areas, fx, tx, my, area, c, r) } else { g1 };
        let g3 = if my != ty { vline_cell(g2, areas, my, ty, tx, area, c, r) } else { g2 };
        let g4 = corner_stage_cell(g3, (fx, my), (fx, fy), (tx, my), area, c, r,
            fy != my && fx != tx && !hits_any(areas, fx, my));
        corner_stage_cell(g4, (tx, my), (fx, my), (tx, ty), area, c, r,
            fx != tx && my != ty && !hits_any(areas, tx, my))
    }
}

/// What a cell holding `old` comes to hold once a relationship line
/// from `(fx, fy)` to `(tx, ty)` is drawn: nothing for coincident
/// points, a straight run along a shared axis, a stepped direct line
/// for tiny offsets, and the three-segment route otherwise.
pub open spec fn smooth_cell(
    old: char,
    areas: Seq<Rect>,
    fx: int,
    fy: int,
    tx: int,
    ty: int,
    area: Rect,
    c: int,
    r: int,
) -> char {
    let dx = tx - fx;
    let dy = ty - fy;
    if dx == 0 && dy == 0 {
        old
    } else if dx == 0 {
        vline_cell(old, areas, fy, ty, fx, area, c, r)
    } else if dy == 0 {
        hline_cell(old, areas, fx, tx, fy, area, c, r)
    } else if abs_int(dx) <= 2 && abs_int(dy) <= 2 {
        direct_cell(old, areas, fx, fy, tx, ty, area, c, r)
    } else {
        three_seg_cell(old, areas, fx, fy, tx, ty, area, c, r)
    }
}

/// The two endpoints of a relationship line, as
/// `calculate_column_connection_points` computes them: each point just
/// outside its rectangle, on the side facing the other, at the named
/// column's row.
pub open spec fn conn_points_spec(
    fe: Entity,
    te: Entity,
    fcol: Seq<char>,
    tcol: Seq<char>,
    fa: Rect,
    ta: Rect,
) -> ((int, int), (int, int)) {
    let fcx = fa.x + fa.width / 2;
    let fcy = fa.y + fa.height / 2;
    let tcx = ta.x + ta.width / 2;
    let tcy = ta.y + ta.height / 2;
    let from_row = fa.y + 1 + column_index_or_zero(fe.columns@, fcol);
    let to_row = ta.y + 1 + column_index_or_zero(te.columns@, tcol);
    let from_point = if tcx > fcx {
        (fa.x + fa.width, from_row)
    } else if tcx < fcx {
        (if fa.x > 0 { fa.x - 1int } else { 0int }, from_row)
    } else if tcy >= fcy {
        (fcx, fa.y + fa.height)
    } else {
        (fcx, if fa.y > 0 { fa.y - 1int } else { 0int })
    };
    let to_point = if fcx > tcx {
        (ta.x + ta.width, to_row)
    } else if fcx < tcx {
        (if ta.x > 0 { ta.x - 1int } else { 0int }, to_row)
    } else if fcy > tcy {
        (tcx, ta.y + ta.height)
    } else {
        (tcx, if ta.y > 0 { ta.y - 1int } else { 0int })
    };
    (from_point, to_point)
}

/// Geometry the relationship-line arithmetic accepts: rectangles well
/// inside the coordinate space and column lists of drawable length.
pub open spec fn rel_guard_ok(fa: Rect, ta: Rect, fe: Entity, te: Entity) -> bool {
    &&& fa.x + fa.width <= 60_000
    &&& fa.y + fa.height <= 60_000
    &&& ta.x + ta.width <= 60_000
    &&& ta.y + ta.height <= 60_000
    &&& fe.columns@.len() <= 5_000
    &&& te.columns@.len() <= 5_000
}

/// What a cell holding `old` comes to hold once the relationship line
/// between `fe`'s and `te`'s named columns is drawn: the smooth route
/// followed by the arrowhead, or nothing when the geometry is out of
/// range.
pub open spec fn rel_line_cell(
    old: char,
    fe: Entity,
    te: Entity,
    fcol: Seq<char>,
    tcol: Seq<char>,
    areas: Seq<Rect>,
    w: u16,
    h: u16,
    carea: Rect,
    c: int,
    r: int,
) -> char {
    let fa = entity_area_spec(w, h, fe, carea);
    let ta = entity_area_spec(w, h, te, carea);
    if !rel_guard_ok(fa, ta, fe, te) {
        old
    } else {
        let p = conn_points_spec(fe, te, fcol, tcol, fa, ta);
        arrow_cell(
            smooth_cell(old, areas, p.0.0, p.0.1, p.1.0, p.1.1, carea, c, r),
            areas,
            p.1,
            p.0,
            carea,
            c,
            r,
        )
    }
}

/// What a cell holding `old` comes to hold once relationship `e` of the
/// schema is drawn: nothing when either table is missing.
pub open spec fn schema_rel_cell(
    old: char,
    schema: Schema,
    w: u16,
    h: u16,
    carea: Rect,
    e: int,
    c: int,
    r: int,
) -> char {
    let rel = schema.relationships@[e];
    match crate::models::entity_index_of(schema.entities@, rel.from_table@) {
        Some(fi) => match crate::models::entity_index_of(schema.entities@, rel.to_table@) {
            Some(ti) => rel_line_cell(
                old,
                schema.entities@[fi],
                schema.entities@[ti],
                rel.from_column@,
                rel.to_column@,
                entity_areas_spec(schema.entities@, w, h, carea),
                w,
                h,
                carea,
                c,
                r,
            ),
            None => old,
        },
        None => old,
    }
}

/// Grid `g` with relationship `e` of the schema drawn.
pub open spec fn schema_rel_grid(g: Seq<Seq<char>>, schema: Schema, w: u16, h: u16, carea: Rect, e: int) -> Seq<Seq<char>> {
    Seq::new(g.len(), |r: int| Seq::new(g[r].len(), |c: int| schema_rel_cell(g[r][c], schema, w, h, carea, e, c, r)))
}

/// Grid `g` with the first `e` relationships of the schema drawn, in
/// order.
pub open spec fn rels_drawn(g: Seq<Seq<char>>, schema: Schema, w: u16, h: u16, carea: Rect, e: int) -> Seq<Seq<char>>
    decreases e,
{
    if e <= 0 {
        g
    } else {
        schema_rel_grid(rels_drawn(g, schema, w, h, carea, e - 1), schema, w, h, carea, e - 1)
    }
}

/// Grid `a` with every widget painted, as a function.
pub open spec fn widgets_grid(a: Seq<Seq<char>>, es: Seq<Entity>, w: u16, h: u16, carea: Rect) -> Seq<Seq<char>> {
    Seq::new(a.len(), |r: int| Seq::new(a[r].len(), |c: int| match widget_covered(es, w, h, carea, c, r) {
        Some(g) => g,
        None => a[r][c],
    }))
}

/// The corner table of the eight orthogonal turns: each entry/exit
/// direction pair gets exactly its glyph -- entering rightward and
/// leaving downward gives the top-right corner -- and every direction
/// pair outside the eight turns falls back to the crossing glyph.
pub proof fn lemma_corner_glyph_table()
    ensures
        forall|d1: int, d2: int| d1 > 0 && d2 > 0 ==> #[trigger] corner_char_for(d1, 0, 0, d2)
            == '\u{2510}',
        forall|d1: int, d2: int| d1 > 0 && d2 < 0 ==> #[trigger] corner_char_for(d1, 0, 0, d2)
            == '\u{2518}',
        forall|d1: int, d2: int| d1 < 0 && d2 > 0 ==> #[trigger] corner_char_for(d1, 0, 0, d2)
            == '\u{250c}',
        forall|d1: int, d2: int| d1 < 0 && d2 < 0 ==> #[trigger] corner_char_for(d1, 0, 0, d2)
            == '\u{2514}',
        forall|d1: int, d2: int| d1 > 0 && d2 > 0 ==> #[trigger] corner_char_for(0, d1, d2, 0)
            == '\u{2514}',
        forall|d1: int, d2: int| d1 > 0 && d2 < 0 ==> #[trigger] corner_char_for(0, d1, d2, 0)
            == '\u{2518}',
        forall|d1: int, d2: int| d1 < 0 && d2 > 0 ==> #[trigger] corner_char_for(0, d1, d2, 0)
            == '\u{250c}',
        forall|d1: int, d2: int| d1 < 0 && d2 < 0 ==> #[trigger] corner_char_for(0, d1, d2, 0)
            == '\u{2510}',
        forall|a1: int, b1: int, a2: int, b2: int|
            (sgn(a1) != 0 && sgn(b1) != 0) || (sgn(a2) != 0 && sgn(b2) != 0)
            ==> #[trigger] corner_char_for(a1, b1, a2, b2) == '\u{253c}',
{
}

/// A straight relationship line stays straight end to end: when the two
/// connector points share a row, the route-plus-arrowhead cell
/// transformation writes only horizontal fill and arrowhead glyphs, and
/// when they share a column, only vertical fill and arrowhead glyphs --
/// never a corner or crossing glyph.
pub proof fn lemma_straight_line_glyphs(
    old_c: char,
    areas: Seq<Rect>,
    fx: int,
    fy: int,
    tx: int,
    ty: int,
    area: Rect,
    c: int,
    r: int,
)
    ensures
        fy == ty && fx != tx ==> ({
            let v = arrow_cell(
                smooth_cell(old_c, areas, fx, fy, tx, ty, area, c, r),
                areas,
                (tx, ty),
                (fx, fy),
                area,
                c,
                r,
            );
            v == old_c || v == '\u{2500}' || v == '\u{25c4}' || v == '\u{25ba}' || v == '\u{25b2}'
                || v == '\u{25bc}'
        }),
        fx == tx && fy != ty ==> ({
            let v = arrow_cell(
                smooth_cell(old_c, areas, fx, fy, tx, ty, area, c, r),
                areas,
                (tx, ty),
                (fx, fy),
                area,
                c,
                r,
            );
            v == old_c || v == '\u{2502}' || v == '\u{25c4}' || v == '\u{25ba}' || v == '\u{25b2}'
                || v == '\u{25bc}'
        }),
{
}

/// The shape of the three-segment route: any cell inside an entity
/// rectangle is untouched, and a corner or crossing glyph can appear
/// only at the two midpoint turning cells -- every other changed cell
/// holds plain straight fill.
pub proof fn lemma_three_segment_shape(
    old_c: char,
    areas: Seq<Rect>,
    fx: int,
    fy: int,
    tx: int,
    ty: int,
    area: Rect,
    c: int,
    r: int,
)
    ensures
        hits_any(areas, c, r) ==> three_seg_cell(old_c, areas, fx, fy, tx, ty, area, c, r) == old_c,
        ({
            let v = three_seg_cell(old_c, areas, fx, fy, tx, ty, area, c, r);
            let corner = v == '\u{250c}' || v == '\u{2510}' || v == '\u{2514}' || v == '\u{2518}'
                || v == '\u{253c}';
            v != old_c && corner ==> (if abs_int(tx - fx) > abs_int(ty - fy) {
                c == midpoint(fx, tx) && (r == fy || r == ty)
            } else {
                r == midpoint(fy, ty) && (c == fx || c == tx)
            })
        }),
{
}

/// Renders a schema's diagram into a drawing area of the canvas.
pub struct DiagramRenderer {
    canvas_width: u16,
    canvas_height: u16,
}

impl DiagramRenderer {
    /// Width of the layout coordinate space.
    pub closed spec fn width(&self) -> u16 {
        self.canvas_width
    }

    /// Height of the layout coordinate space.
    pub closed spec fn height(&self) -> u16 {
        self.canvas_height
    }

    /// A renderer whose layout coordinate space is `width` by `height`.
    pub fn new(width: u16, height: u16) -> (r: Self)
        ensures
            r.width() == width,
            r.height() == height,
    {
        Self { canvas_width: width, canvas_height: height }
    }

    /// Write one glyph at `(x, y)`, clipped to the drawing area and to
    /// the canvas.
    fn draw_line_segment(&self, canvas: &mut Vec<Vec<char>>, x: u16, y: u16, ch: char, area: Rect)
        ensures
            same_dims(old(canvas).deep_view(), final(canvas).deep_view()),
            forall|r: int, c: int|
                0 <= r < old(canvas).deep_view().len() && 0 <= c < old(canvas).deep_view()[r].len()
                ==> #[trigger] final(canvas).deep_view()[r][c] == (
                    if r == y && c == x && x < area.x + area.width && y < area.y + area.height {
                        ch
                    } else {
                        old(canvas).deep_view()[r][c]
                    }),
    {
        if (x as u32) < (area.x as u32) + (area.width as u32)
            && (y as u32) < (area.y as u32) + (area.height as u32) {
            put_cell(canvas, x as usize, y as usize, ch);
        }
    }

    /// Whether `(x, y)` lies inside the given entity rectangle, borders
    /// included: lines must not cross any part of a rendered widget.
    pub fn point_is_inside_entity(&self, x: u16, y: u16, entity_area: &Rect) -> (r: bool)
        ensures
            r == rect_contains(*entity_area, x as int, y as int),
    {
        (x as u32) >= (entity_area.x as u32)
            && (x as u32) < (entity_area.x as u32) + (entity_area.width as u32)
            && (y as u32) >= (entity_area.y as u32)
            && (y as u32) < (entity_area.y as u32) + (entity_area.height as u32)
    }

    /// Whether `(x, y)` lies inside any entity rectangle.
    pub fn point_intersects_any_entity(&self, x: u16, y: u16, entity_areas: &Vec<Rect>) -> (r: bool)
        ensures
            r == hits_any(entity_areas@, x as int, y as int),
    {
        let n = entity_areas.len();
        let mut i: usize = 0;
        while i < n
            invariant
                n == entity_areas@.len(),
                0 <= i <= n,
                forall|k: int| 0 <= k < i
                    ==> !rect_contains(#[trigger] entity_areas@[k], x as int, y as int),
            decreases n - i,
        {
            if self.point_is_inside_entity(x, y, &entity_areas[i]) {
                return true;
            }
            i += 1;
        }
        false
    }

    /// The fill glyph for a travel direction: horizontal when that axis
    /// dominates, vertical otherwise.
    pub fn get_line_character_for_direction(&self, dx: i64, dy: i64) -> (ch: char)
        requires
            i64::MIN < dx,
            i64::MIN < dy,
        ensures
            ch == line_glyph_for(dx as int, dy as int),
    {
        let adx = if dx >= 0 { dx } else { -dx };
        let ady = if dy >= 0 { dy } else { -dy };
        if adx > ady {
            '\u{2500}'
        } else {
            '\u{2502}'
        }
    }

    /// Draw the corner glyph where the line from `from` through `corner`
    /// towards `to` changes direction; cells inside entity rectangles
    /// are left to the caller's checks, the drawing area clips.
    fn draw_corner(
        &self,
        canvas: &mut Vec<Vec<char>>,
        corner: (u16, u16),
        from: (u16, u16),
        to: (u16, u16),
        area: Rect,
    )
        ensures
            same_dims(old(canvas).deep_view(), final(canvas).deep_view()),
            forall|r: int, c: int|
                0 <= r < old(canvas).deep_view().len() && 0 <= c < old(canvas).deep_view()[r].len()
                ==> #[trigger] final(canvas).deep_view()[r][c] == (
                    if r == corner.1 && c == corner.0 && corner.0 < area.x + area.width
                        && corner.1 < area.y + area.height {
                        corner_char_for(
                            corner.0 - from.0,
                            corner.1 - from.1,
                            to.0 - corner.0,
                            to.1 - corner.1,
                        )
                    } else {
                        old(canvas).deep_view()[r][c]
                    }),
    {
        let dx1: i64 = (corner.0 as i64) - (from.0 as i64);
        let dy1: i64 = (corner.1 as i64) - (from.1 as i64);
        let dx2: i64 = (to.0 as i64) - (corner.0 as i64);
        let dy2: i64 = (to.1 as i64) - (corner.1 as i64);

        let s1 = if dx1 > 0 { 1i64 } else if dx1 < 0 { -1i64 } else { 0i64 };
        let t1 = if dy1 > 0 { 1i64 } else if dy1 < 0 { -1i64 } else { 0i64 };
        let s2 = if dx2 > 0 { 1i64 } else if dx2 < 0 { -1i64 } else { 0i64 };
        let t2 = if dy2 > 0 { 1i64 } else if dy2 < 0 { -1i64 } else { 0i64 };

        let corner_char = if s1 == 1 && t1 == 0 && s2 == 0 && t2 == 1 {
            '\u{2510}'
        } else if s1 == 1 && t1 == 0 && s2 == 0 && t2 == -1 {
            '\u{2518}'
        } else if s1 == -1 && t1 == 0 && s2 == 0 && t2 == 1 {
            '\u{250c}'
        } else if s1 == -1 && t1 == 0 && s2 == 0 && t2 == -1 {
            '\u{2514}'
        } else if s1 == 0 && t1 == 1 && s2 == 1 && t2 == 0 {
            '\u{2514}'
        } else if s1 == 0 && t1 == 1 && s2 == -1 && t2 == 0 {
            '\u{2518}'
        } else if s1 == 0 && t1 == -1 && s2 == 1 && t2 == 0 {
            '\u{250c}'
        } else if s1 == 0 && t1 == -1 && s2 == -1 && t2 == 0 {
            '\u{2510}'
        } else {
            '\u{253c}'
        };

        self.draw_line_segment(canvas, corner.0, corner.1, corner_char, area);
    }

    /// Draw the horizontal run between the two points' columns along the
    /// first point's row, skipping cells inside any entity rectangle.
    fn draw_horizontal_line_avoiding_entities(
        &self,
        canvas: &mut Vec<Vec<char>>,
        from: (u16, u16),
        to: (u16, u16),
        entity_areas: &Vec<Rect>,
        area: Rect,
    )
        ensures
            same_dims(old(canvas).deep_view(), final(canvas).deep_view()),
            forall|r: int, c: int|
                0 <= r < old(canvas).deep_view().len() && 0 <= c < old(canvas).deep_view()[r].len()
                ==> #[trigger] final(canvas).deep_view()[r][c] == hline_cell(
                    old(canvas).deep_view()[r][c],
                    entity_areas@,
                    from.0 as int,
                    to.0 as int,
                    from.1 as int,
                    area,
                    c,
                    r,
                ),
            lines_overlay(old(canvas).deep_view(), final(canvas).deep_view(), entity_areas@),
    {
        let ghost a = canvas.deep_view();
        let start_x = if from.0 <= to.0 { from.0 } else { to.0 };
        let end_x = if from.0 <= to.0 { to.0 } else { from.0 };
        let y = from.1;

        let mut x = start_x;
        let mut done = false;
        while !done
            invariant
                start_x == min_int(from.0 as int, to.0 as int),
                end_x == max_int(from.0 as int, to.0 as int),
                y == from.1,
                start_x <= x <= end_x,
                done ==> x == end_x,
                same_dims(a, canvas.deep_view()),
                forall|r: int, c: int| 0 <= r < a.len() && 0 <= c < a[r].len()
                    ==> #[trigger] canvas.deep_view()[r][c] == (
                        if r == y && start_x <= c && (c < x || (done && c <= x))
                            && !hits_any(entity_areas@, c, r) && c < area.x + area.width
                            && r < area.y + area.height {
                            '\u{2500}'
                        } else {
                            a[r][c]
                        }),
            decreases end_x - x + (if done { 0int } else { 1int }),
        {
            if !self.point_intersects_any_entity(x, y, entity_areas) {
                self.draw_line_segment(canvas, x, y, '\u{2500}', area);
            }
            if x == end_x {
                done = true;
            } else {
                x += 1;
            }
        }
    }

    /// Draw the vertical run between the two points' rows along the
    /// first point's column, skipping cells inside any entity rectangle.
    fn draw_vertical_line_avoiding_entities(
        &self,
        canvas: &mut Vec<Vec<char>>,
        from: (u16, u16),
        to: (u16, u16),
        entity_areas: &Vec<Rect>,
        area: Rect,
    )
        ensures
            same_dims(old(canvas).deep_view(), final(canvas).deep_view()),
            forall|r: int, c: int|
                0 <= r < old(canvas).deep_view().len() && 0 <= c < old(canvas).deep_view()[r].len()
                ==> #[trigger] final(canvas).deep_view()[r][c] == vline_cell(
                    old(canvas).deep_view()[r][c],
                    entity_areas@,
                    from.1 as int,
                    to.1 as int,
                    from.0 as int,
                    area,
                    c,
                    r,
                ),
            lines_overlay(old(canvas).deep_view(), final(canvas).deep_view(), entity_areas@),
    {
        let ghost a = canvas.deep_view();
        let start_y = if from.1 <= to.1 { from.1 } else { to.1 };
        let end_y = if from.1 <= to.1 { to.1 } else { from.1 };
        let x = from.0;

        let mut y = start_y;
        let mut done = false;
        while !done
            invariant
                start_y == min_int(from.1 as int, to.1 as int),
                end_y == max_int(from.1 as int, to.1 as int),
                x == from.0,
                start_y <= y <= end_y,
                done ==> y == end_y,
                same_dims(a, canvas.deep_view()),
                forall|r: int, c: int| 0 <= r < a.len() && 0 <= c < a[r].len()
                    ==> #[trigger] canvas.deep_view()[r][c] == (
                        if c == x && start_y <= r && (r < y || (done && r <= y))
                            && !hits_any(entity_areas@, c, r) && c < area.x + area.width
                            && r < area.y + area.height {
                            '\u{2502}'
                        } else {
                            a[r][c]
                        }),
            decreases end_y - y + (if done { 0int } else { 1int }),
        {
            if !self.point_intersects_any_entity(x, y, entity_areas) {
                self.draw_line_segment(canvas, x, y, '\u{2502}', area);
            }
            if y == end_y {
                done = true;
            } else {
                y += 1;
            }
        }
    }

    /// Draw the arrowhead at `tip`, pointing away from `from` into the
    /// referenced entity.
    fn draw_arrow_head(
        &self,
        canvas: &mut Vec<Vec<char>>,
        tip: (u16, u16),
        from: (u16, u16),
        entity_areas: &Vec<Rect>,
        area: Rect,
    )
        ensures
            same_dims(old(canvas).deep_view(), final(canvas).deep_view()),
            forall|r: int, c: int|
                0 <= r < old(canvas).deep_view().len() && 0 <= c < old(canvas).deep_view()[r].len()
                ==> #[trigger] final(canvas).deep_view()[r][c] == arrow_cell(
                    old(canvas).deep_view()[r][c],
                    entity_areas@,
                    (tip.0 as int, tip.1 as int),
                    (from.0 as int, from.1 as int),
                    area,
                    c,
                    r,
                ),
            lines_overlay(old(canvas).deep_view(), final(canvas).deep_view(), entity_areas@),
    {
        let dx: i64 = (from.0 as i64) - (tip.0 as i64);
        let dy: i64 = (from.1 as i64) - (tip.1 as i64);
        let adx = if dx >= 0 { dx } else { -dx };
        let ady = if dy >= 0 { dy } else { -dy };
        let arrow = if adx > ady {
            if dx > 0 { '\u{25c4}' } else { '\u{25ba}' }
        } else {
            if dy > 0 { '\u{25b2}' } else { '\u{25bc}' }
        };
        if !self.point_intersects_any_entity(tip.0, tip.1, entity_areas) {
            self.draw_line_segment(canvas, tip.0, tip.1, arrow, area);
        }
    }
}

/// Smaller of two values.
pub open spec fn min_int(a: int, b: int) -> int {
    if a <= b {
        a
    } else {
        b
    }
}

/// Larger of two values.
pub open spec fn max_int(a: int, b: int) -> int {
    if a <= b {
        b
    } else {
        a
    }
}

/// A rectangle centered in `r`, spanning the given percentages of its
/// width and height.
pub fn centered_rect(percent_x: u16, percent_y: u16, r: Rect) -> (c: Rect)
    requires
        percent_x <= 100,
        percent_y <= 100,
        r.x + r.width <= 0xFFFF,
        r.y + r.height <= 0xFFFF,
    ensures
        c.width == r.width * percent_x / 100,
        c.height == r.height * percent_y / 100,
        c.x == r.x + r.width * ((100 - percent_x) / 2) / 100,
        c.y == r.y + r.height * ((100 - percent_y) / 2) / 100,
{
    proof {
        lemma_percent_bounds(r.width as int, percent_x as int);
        lemma_percent_bounds(r.height as int, percent_y as int);
        lemma_percent_bounds(r.width as int, ((100 - percent_x) / 2) as int);
        lemma_percent_bounds(r.height as int, ((100 - percent_y) / 2) as int);
    }
    let width = ((r.width as u32) * (percent_x as u32) / 100) as u16;
    let height = ((r.height as u32) * (percent_y as u32) / 100) as u16;
    let x = ((r.x as u32) + (r.width as u32) * (((100 - percent_x) / 2) as u32) / 100) as u16;
    let y = ((r.y as u32) + (r.height as u32) * (((100 - percent_y) / 2) as u32) / 100) as u16;
    Rect { x, y, width, height }
}

/// A percentage of a screen dimension never exceeds the dimension.
proof fn lemma_percent_bounds(w: int, p: int)
    requires
        0 <= w <= 0xFFFF,
        0 <= p <= 100,
    ensures
        0 <= w * p <= 6_553_500,
        0 <= w * p / 100 <= w,
{
    assert(0 <= w * p <= 6_553_500) by (nonlinear_arith)
        requires
            0 <= w <= 0xFFFF,
            0 <= p <= 100,
    ;
    assert(w * p <= w * 100) by (nonlinear_arith)
        requires
            0 <= w,
            p <= 100,
    ;
    vstd::arithmetic::div_mod::lemma_div_is_ordered(w * p, w * 100, 100);
    vstd::arithmetic::div_mod::lemma_div_pos_is_pos(w * p, 100);
    vstd::arithmetic::div_mod::lemma_div_multiples_vanish(w, 100);
}


impl DiagramRenderer {
    /// Map an entity's layout position into the drawing area: position
    /// scaled by the area size over the layout size, the box capped at a
    /// quarter of the area on each axis.
    pub fn calculate_entity_area(&self, entity: &Entity, canvas_area: Rect) -> (r: Rect)
        requires
            self.width() >= 1,
            self.height() >= 1,
            0 <= entity.position.x <= POSITION_LIMIT,
            0 <= entity.position.y <= POSITION_LIMIT,
        ensures
            r == entity_area_spec(self.width(), self.height(), *entity, canvas_area),
            ({
                let sx = entity.position.x * canvas_area.width / (self.width() as int)
                    + canvas_area.x;
                sx <= 0xFFFF ==> r.x == sx
            }),
            ({
                let sy = entity.position.y * canvas_area.height / (self.height() as int)
                    + canvas_area.y;
                sy <= 0xFFFF ==> r.y == sy
            }),
            r.width == min_int(entity.dimensions.width as int, canvas_area.width as int / 4),
            r.height == min_int(entity.dimensions.height as int, canvas_area.height as int / 4),
    {
        proof {
            assert(entity.position.x * canvas_area.width <= 65_535_000_000) by (nonlinear_arith)
                requires
                    0 <= entity.position.x <= 1_000_000,
                    0 <= canvas_area.width <= 0xFFFF,
            ;
            assert(entity.position.y * canvas_area.height <= 65_535_000_000) by (nonlinear_arith)
                requires
                    0 <= entity.position.y <= 1_000_000,
                    0 <= canvas_area.height <= 0xFFFF,
            ;
            vstd::arithmetic::div_mod::lemma_div_pos_is_pos(
                entity.position.x * canvas_area.width,
                self.width() as int,
            );
            vstd::arithmetic::div_mod::lemma_div_pos_is_pos(
                entity.position.y * canvas_area.height,
                self.height() as int,
            );
        }
        let sx: u64 = (entity.position.x as u64) * (canvas_area.width as u64)
            / (self.canvas_width as u64) + (canvas_area.x as u64);
        let sy: u64 = (entity.position.y as u64) * (canvas_area.height as u64)
            / (self.canvas_height as u64) + (canvas_area.y as u64);
        let x: u16 = if sx <= 0xFFFF { sx as u16 } else { 0xFFFF };
        let y: u16 = if sy <= 0xFFFF { sy as u16 } else { 0xFFFF };

        let quarter_w = canvas_area.width / 4;
        let quarter_h = canvas_area.height / 4;
        let width = if entity.dimensions.width < quarter_w { entity.dimensions.width } else { quarter_w };
        let height = if entity.dimensions.height < quarter_h { entity.dimensions.height } else { quarter_h };

        Rect { x, y, width, height }
    }

    /// Row of the named column inside its entity's rectangle: one below
    /// the top border, one further per preceding column; an unknown name
    /// falls back to the first column's row.
    pub fn calculate_column_y_position(&self, entity: &Entity, column_name: &String, entity_area: &Rect) -> (r: u16)
        requires
            entity_area.y <= 60_000,
            entity.columns@.len() <= 5_000,
        ensures
            r == entity_area.y + 1 + column_index_or_zero(entity.columns@, column_name@),
    {
        let n = entity.columns.len();
        let mut j: usize = 0;
        proof {
            lemma_column_index_bound(entity.columns@, column_name@);
        }
        while j < n
            invariant
                n == entity.columns@.len(),
                n <= 5_000,
                entity_area.y <= 60_000,
                0 <= j <= n,
                forall|k: int| 0 <= k < j ==> (#[trigger] entity.columns@[k]).name@ != column_name@,
            decreases n - j,
        {
            if entity.columns[j].name == *column_name {
                proof {
                    lemma_column_index_found(entity.columns@, column_name@, j as int);
                }
                return entity_area.y + 1 + (j as u16);
            }
            j += 1;
        }
        proof {
            lemma_column_index_missing(entity.columns@, column_name@);
        }
        entity_area.y + 1
    }

    /// The two endpoints of a relationship line: each point sits just
    /// outside its entity's rectangle, on the side facing the other
    /// entity, at the named column's row; vertically stacked entities --
    /// a table referencing itself included -- connect bottom to top, and
    /// then the two points are never the same cell.
    pub fn calculate_column_connection_points(
        &self,
        from_entity: &Entity,
        to_entity: &Entity,
        from_column_name: &String,
        to_column_name: &String,
        from_area: &Rect,
        to_area: &Rect,
    ) -> (p: ((u16, u16), (u16, u16)))
        requires
            from_area.x + from_area.width <= 60_000,
            from_area.y + from_area.height <= 60_000,
            to_area.x + to_area.width <= 60_000,
            to_area.y + to_area.height <= 60_000,
            from_area.y <= 60_000,
            to_area.y <= 60_000,
            from_entity.columns@.len() <= 5_000,
            to_entity.columns@.len() <= 5_000,
        ensures
            ({
                let fcx = from_area.x + from_area.width / 2;
                let fcy = from_area.y + from_area.height / 2;
                let tcx = to_area.x + to_area.width / 2;
                let tcy = to_area.y + to_area.height / 2;
                let from_row = from_area.y + 1
                    + column_index_or_zero(from_entity.columns@, from_column_name@);
                let to_row = to_area.y + 1
                    + column_index_or_zero(to_entity.columns@, to_column_name@);
                &&& (tcx > fcx ==> p.0.0 == from_area.x + from_area.width && p.0.1 == from_row)
                &&& (tcx < fcx ==> p.0.0 == (if from_area.x > 0 { from_area.x - 1 } else { 0int })
                    && p.0.1 == from_row)
                &&& (tcx == fcx && tcy >= fcy ==> p.0.0 == fcx
                    && p.0.1 == from_area.y + from_area.height)
                &&& (tcx == fcx && tcy < fcy ==> p.0.0 == fcx
                    && p.0.1 == (if from_area.y > 0 { from_area.y - 1 } else { 0int }))
                &&& (fcx > tcx ==> p.1.0 == to_area.x + to_area.width && p.1.1 == to_row)
                &&& (fcx < tcx ==> p.1.0 == (if to_area.x > 0 { to_area.x - 1 } else { 0int })
                    && p.1.1 == to_row)
                &&& (fcx == tcx && fcy > tcy ==> p.1.0 == tcx
                    && p.1.1 == to_area.y + to_area.height)
                &&& (fcx == tcx && fcy <= tcy ==> p.1.0 == tcx
                    && p.1.1 == (if to_area.y > 0 { to_area.y - 1 } else { 0int }))
            }),
            *from_area == *to_area && from_area.height > 0 ==> p.0 != p.1,
            p.0.0 == conn_points_spec(
                *from_entity, *to_entity, from_column_name@, to_column_name@, *from_area, *to_area,
            ).0.0,
            p.0.1 == conn_points_spec(
                *from_entity, *to_entity, from_column_name@, to_column_name@, *from_area, *to_area,
            ).0.1,
            p.1.0 == conn_points_spec(
                *from_entity, *to_entity, from_column_name@, to_column_name@, *from_area, *to_area,
            ).1.0,
            p.1.1 == conn_points_spec(
                *from_entity, *to_entity, from_column_name@, to_column_name@, *from_area, *to_area,
            ).1.1,
    {
        let from_column_y = self.calculate_column_y_position(from_entity, from_column_name, from_area);
        let to_column_y = self.calculate_column_y_position(to_entity, to_column_name, to_area);

        let from_center_x = from_area.x + from_area.width / 2;
        let from_center_y = from_area.y + from_area.height / 2;
        let to_center_x = to_area.x + to_area.width / 2;
        let to_center_y = to_area.y + to_area.height / 2;

        let from_point = if to_center_x > from_center_x {
            (from_area.x + from_area.width, from_column_y)
        } else if to_center_x < from_center_x {
            (if from_area.x > 0 { from_area.x - 1 } else { 0 }, from_column_y)
        } else if to_center_y >= from_center_y {
            // Ties -- vertically stacked or coincident rectangles --
            // leave from below, so a self loop never collapses.
            (from_center_x, from_area.y + from_area.height)
        } else {
            (from_center_x, if from_area.y > 0 { from_area.y - 1 } else { 0 })
        };

        let to_point = if from_center_x > to_center_x {
            (to_area.x + to_area.width, to_column_y)
        } else if from_center_x < to_center_x {
            (if to_area.x > 0 { to_area.x - 1 } else { 0 }, to_column_y)
        } else if from_center_y > to_center_y {
            (to_center_x, to_area.y + to_area.height)
        } else {
            (to_center_x, if to_area.y > 0 { to_area.y - 1 } else { 0 })
        };

        (from_point, to_point)
    }

    /// Draw a short near-diagonal connection by stepping cell by cell
    /// from `from` to `to`, skipping entity rectangles.
    fn draw_direct_line_avoiding_entities(
        &self,
        canvas: &mut Vec<Vec<char>>,
        from: (u16, u16),
        to: (u16, u16),
        entity_areas: &Vec<Rect>,
        area: Rect,
    )
        ensures
            same_dims(old(canvas).deep_view(), final(canvas).deep_view()),
            forall|r: int, c: int|
                0 <= r < old(canvas).deep_view().len() && 0 <= c < old(canvas).deep_view()[r].len()
                ==> #[trigger] final(canvas).deep_view()[r][c] == direct_cell(
                    old(canvas).deep_view()[r][c],
                    entity_areas@,
                    from.0 as int,
                    from.1 as int,
                    to.0 as int,
                    to.1 as int,
                    area,
                    c,
                    r,
                ),
            lines_overlay(old(canvas).deep_view(), final(canvas).deep_view(), entity_areas@),
    {
        let ghost a = canvas.deep_view();
        let ghost fx = from.0 as int;
        let ghost fy = from.1 as int;
        let ghost tx = to.0 as int;
        let ghost ty = to.1 as int;
        let adx: u16 = if to.0 >= from.0 { to.0 - from.0 } else { from.0 - to.0 };
        let ady: u16 = if to.1 >= from.1 { to.1 - from.1 } else { from.1 - to.1 };
        let steps: u16 = if adx >= ady { adx } else { ady };
        if steps == 0 {
            return;
        }
        let dx64: i64 = (to.0 as i64) - (from.0 as i64);
        let dy64: i64 = (to.1 as i64) - (from.1 as i64);
        let line_char = self.get_line_character_for_direction(dx64, dy64);
        proof {
            assert(is_line_glyph(line_glyph_for(tx - fx, ty - fy)));
        }
        let mut i: u32 = 0;
        while i <= steps as u32
            invariant
                a == old(canvas).deep_view(),
                fx == from.0 as int,
                fy == from.1 as int,
                tx == to.0 as int,
                ty == to.1 as int,
                adx == abs_int(tx - fx),
                ady == abs_int(ty - fy),
                steps as int == direct_steps(fx, fy, tx, ty),
                steps > 0,
                0 <= i <= steps as u32 + 1,
                line_char == line_glyph_for(tx - fx, ty - fy),
                same_dims(a, canvas.deep_view()),
                forall|r: int, c: int| 0 <= r < a.len() && 0 <= c < a[r].len()
                    ==> #[trigger] canvas.deep_view()[r][c] == (
                        if direct_visited_upto(fx, fy, tx, ty, c, r, i as int)
                            && !hits_any(entity_areas@, c, r) && c < area.x + area.width
                            && r < area.y + area.height {
                            line_glyph_for(tx - fx, ty - fy)
                        } else {
                            a[r][c]
                        }),
                lines_overlay(a, canvas.deep_view(), entity_areas@),
            decreases steps as u32 + 1 - i,
        {
            proof {
                assert(i as int * (adx as int) <= steps as int * (adx as int)) by (nonlinear_arith)
                    requires
                        0 <= i as int <= steps as int,
                        0 <= adx as int,
                ;
                assert(steps as int * (adx as int) <= 65535 * 65535) by (nonlinear_arith)
                    requires
                        0 <= steps as int <= 65535,
                        0 <= adx as int <= 65535,
                ;
                vstd::arithmetic::div_mod::lemma_div_pos_is_pos(i as int * (adx as int), steps as int);
                vstd::arithmetic::div_mod::lemma_div_is_ordered(
                    i as int * (adx as int),
                    steps as int * (adx as int),
                    steps as int,
                );
                vstd::arithmetic::div_mod::lemma_div_multiples_vanish(adx as int, steps as int);
                assert(i as int * (ady as int) <= steps as int * (ady as int)) by (nonlinear_arith)
                    requires
                        0 <= i as int <= steps as int,
                        0 <= ady as int,
                ;
                assert(steps as int * (ady as int) <= 65535 * 65535) by (nonlinear_arith)
                    requires
                        0 <= steps as int <= 65535,
                        0 <= ady as int <= 65535,
                ;
                vstd::arithmetic::div_mod::lemma_div_pos_is_pos(i as int * (ady as int), steps as int);
                vstd::arithmetic::div_mod::lemma_div_is_ordered(
                    i as int * (ady as int),
                    steps as int * (ady as int),
                    steps as int,
                );
                vstd::arithmetic::div_mod::lemma_div_multiples_vanish(ady as int, steps as int);
            }
            let ox: u32 = (i * (adx as u32)) / (steps as u32);
            let oy: u32 = (i * (ady as u32)) / (steps as u32);
            let x: u16 = if to.0 >= from.0 { from.0 + (ox as u16) } else { from.0 - (ox as u16) };
            let y: u16 = if to.1 >= from.1 { from.1 + (oy as u16) } else { from.1 - (oy as u16) };
            proof {
                assert(ox as int == i as int * abs_int(tx - fx) / (steps as int));
                assert(oy as int == i as int * abs_int(ty - fy) / (steps as int));
                assert(direct_point(fx, fy, tx, ty, i as int) == (x as int, y as int));
            }
            let ghost pre = canvas.deep_view();
            if !self.point_intersects_any_entity(x, y, entity_areas) {
                self.draw_line_segment(canvas, x, y, line_char, area);
            }
            proof {
                let g = canvas.deep_view();
                assert forall|r: int, c: int| 0 <= r < a.len() && 0 <= c < a[r].len()
                    implies #[trigger] g[r][c] == (
                        if direct_visited_upto(fx, fy, tx, ty, c, r, i as int + 1)
                            && !hits_any(entity_areas@, c, r) && c < area.x + area.width
                            && r < area.y + area.height {
                            line_glyph_for(tx - fx, ty - fy)
                        } else {
                            a[r][c]
                        }) by {
                    if r == y as int && c == x as int {
                        assert(direct_visited_upto(fx, fy, tx, ty, c, r, i as int + 1));
                    } else {
                        assert(g[r][c] == pre[r][c]);
                        if direct_visited_upto(fx, fy, tx, ty, c, r, i as int + 1)
                            && !direct_visited_upto(fx, fy, tx, ty, c, r, i as int) {
                            let w = choose|q: int| 0 <= q < i as int + 1
                                && direct_point(fx, fy, tx, ty, q) == (c, r);
                            assert(w == i as int);
                            assert(false);
                        }
                    }
                }
            }
            i += 1;
        }
        proof {
            assert forall|r: int, c: int| 0 <= r < a.len() && 0 <= c < a[r].len()
                implies #[trigger] canvas.deep_view()[r][c] == direct_cell(
                    a[r][c],
                    entity_areas@,
                    fx,
                    fy,
                    tx,
                    ty,
                    area,
                    c,
                    r,
                ) by {}
        }
    }

    /// Draw an orthogonal three-segment route between the two points:
    /// the dominant axis first, a perpendicular jog at the midpoint, the
    /// dominant axis again, with corner glyphs where segments meet.
    fn draw_three_segment_line_avoiding_entities(
        &self,
        canvas: &mut Vec<Vec<char>>,
        from: (u16, u16),
        to: (u16, u16),
        entity_areas: &Vec<Rect>,
        area: Rect,
    )
        ensures
            same_dims(old(canvas).deep_view(), final(canvas).deep_view()),
            forall|r: int, c: int|
                0 <= r < old(canvas).deep_view().len() && 0 <= c < old(canvas).deep_view()[r].len()
                ==> #[trigger] final(canvas).deep_view()[r][c] == three_seg_cell(
                    old(canvas).deep_view()[r][c],
                    entity_areas@,
                    from.0 as int,
                    from.1 as int,
                    to.0 as int,
                    to.1 as int,
                    area,
                    c,
                    r,
                ),
            lines_overlay(old(canvas).deep_view(), final(canvas).deep_view(), entity_areas@),
    {
        let ghost a = canvas.deep_view();
        let ghost fx = from.0 as int;
        let ghost fy = from.1 as int;
        let ghost tx = to.0 as int;
        let ghost ty = to.1 as int;
        let adx: u16 = if to.0 >= from.0 { to.0 - from.0 } else { from.0 - to.0 };
        let ady: u16 = if to.1 >= from.1 { to.1 - from.1 } else { from.1 - to.1 };

        if adx > ady {
            let mid_x: u16 = if to.0 >= from.0 {
                from.0 + (to.0 - from.0) / 2
            } else {
                from.0 - (from.0 - to.0) / 2
            };
            proof {
                assert(mid_x as int == midpoint(fx, tx));
            }
            let mid1 = (mid_x, from.1);
            let mid2 = (mid_x, to.1);

            if from.0 != mid1.0 {
                self.draw_horizontal_line_avoiding_entities(canvas, from, mid1, entity_areas, area);
            }
            let ghost g1 = canvas.deep_view();
            if mid1.1 != mid2.1 {
                self.draw_vertical_line_avoiding_entities(canvas, mid1, mid2, entity_areas, area);
            }
            let ghost g2 = canvas.deep_view();
            if mid2.0 != to.0 {
                self.draw_horizontal_line_avoiding_entities(canvas, mid2, to, entity_areas, area);
            }
            let ghost g3 = canvas.deep_view();

            let corner1_active = from.0 != mid1.0 && mid1.1 != mid2.1
                && !self.point_intersects_any_entity(mid1.0, mid1.1, entity_areas);
            if corner1_active {
                self.draw_corner(canvas, mid1, from, mid2, area);
            }
            let ghost g4 = canvas.deep_view();
            let corner2_active = mid1.1 != mid2.1 && mid2.0 != to.0
                && !self.point_intersects_any_entity(mid2.0, mid2.1, entity_areas);
            if corner2_active {
                self.draw_corner(canvas, mid2, mid1, to, area);
            }

            proof {
                lemma_corner_is_line_glyph();
                assert forall|r: int, c: int| 0 <= r < a.len() && 0 <= c < a[r].len()
                    implies #[trigger] canvas.deep_view()[r][c] == three_seg_cell(
                        a[r][c],
                        entity_areas@,
                        fx,
                        fy,
                        tx,
                        ty,
                        area,
                        c,
                        r,
                    ) by {
                    let mx = midpoint(fx, tx);
                    assert(g1[r][c] == (if fx != mx {
                        hline_cell(a[r][c], entity_areas@, fx, mx, fy, area, c, r)
                    } else {
                        a[r][c]
                    }));
                    assert(g2[r][c] == (if fy != ty {
                        vline_cell(g1[r][c], entity_areas@, fy, ty, mx, area, c, r)
                    } else {
                        g1[r][c]
                    }));
                    assert(g3[r][c] == (if mx != tx {
                        hline_cell(g2[r][c], entity_areas@, mx, tx, ty, area, c, r)
                    } else {
                        g2[r][c]
                    }));
                    assert(g4[r][c] == corner_stage_cell(
                        g3[r][c], (mx, fy), (fx, fy), (mx, ty), area, c, r,
                        fx != mx && fy != ty && !hits_any(entity_areas@, mx, fy),
                    ));
                    assert(canvas.deep_view()[r][c] == corner_stage_cell(
                        g4[r][c], (mx, ty), (mx, fy), (tx, ty), area, c, r,
                        fy != ty && mx != tx && !hits_any(entity_areas@, mx, ty),
                    ));
                }
                assert forall|r: int, c: int|
                    0 <= r < a.len() && 0 <= c < a[r].len()
                        && canvas.deep_view()[r][c] != a[r][c]
                    implies is_line_glyph(#[trigger] canvas.deep_view()[r][c]) by {}
            }
        } else {
            let mid_y: u16 = if to.1 >= from.1 {
                from.1 + (to.1 - from.1) / 2
            } else {
                from.1 - (from.1 - to.1) / 2
            };
            proof {
                assert(mid_y as int == midpoint(fy, ty));
            }
            let mid1 = (from.0, mid_y);
            let mid2 = (to.0, mid_y);

            if from.1 != mid1.1 {
                self.draw_vertical_line_avoiding_entities(canvas, from, mid1, entity_areas, area);
            }
            let ghost g1 = canvas.deep_view();
            if mid1.0 != mid2.0 {
                self.draw_horizontal_line_avoiding_entities(canvas, mid1, mid2, entity_areas, area);
            }
            let ghost g2 = canvas.deep_view();
            if mid2.1 != to.1 {
                self.draw_vertical_line_avoiding_entities(canvas, mid2, to, entity_areas, area);
            }
            let ghost g3 = canvas.deep_view();

            let corner1_active = from.1 != mid1.1 && mid1.0 != mid2.0
                && !self.point_intersects_any_entity(mid1.0, mid1.1, entity_areas);
            if corner1_active {
                self.draw_corner(canvas, mid1, from, mid2, area);
            }
            let ghost g4 = canvas.deep_view();
            let corner2_active = mid1.0 != mid2.0 && mid2.1 != to.1
                && !self.point_intersects_any_entity(mid2.0, mid2.1, entity_areas);
            if corner2_active {
                self.draw_corner(canvas, mid2, mid1, to, area);
            }

            proof {
                lemma_corner_is_line_glyph();
                assert forall|r: int, c: int| 0 <= r < a.len() && 0 <= c < a[r].len()
                    implies #[trigger] canvas.deep_view()[r][c] == three_seg_cell(
                        a[r][c],
                        entity_areas@,
                        fx,
                        fy,
                        tx,
                        ty,
                        area,
                        c,
                        r,
                    ) by {
                    let my = midpoint(fy, ty);
                    assert(g1[r][c] == (if fy != my {
                        vline_cell(a[r][c], entity_areas@, fy, my, fx, area, c, r)
                    } else {
                        a[r][c]
                    }));
                    assert(g2[r][c] == (if fx != tx {
                        hline_cell(g1[r][c], entity_areas@, fx, tx, my, area, c, r)
                    } else {
                        g1[r][c]
                    }));
                    assert(g3[r][c] == (if my != ty {
                        vline_cell(g2[r][c], entity_areas@, my, ty, tx, area, c, r)
                    } else {
                        g2[r][c]
                    }));
                    assert(g4[r][c] == corner_stage_cell(
                        g3[r][c], (fx, my), (fx, fy), (tx, my), area, c, r,
                        fy != my && fx != tx && !hits_any(entity_areas@, fx, my),
                    ));
                    assert(canvas.deep_view()[r][c] == corner_stage_cell(
                        g4[r][c], (tx, my), (fx, my), (tx, ty), area, c, r,
                        fx != tx && my != ty && !hits_any(entity_areas@, tx, my),
                    ));
                }
                assert forall|r: int, c: int|
                    0 <= r < a.len() && 0 <= c < a[r].len()
                        && canvas.deep_view()[r][c] != a[r][c]
                    implies is_line_glyph(#[trigger] canvas.deep_view()[r][c]) by {}
            }
        }
    }

    /// Draw a relationship line: straight when the points share an axis,
    /// stepped directly for tiny offsets, and as a three-segment route
    /// otherwise.
    fn draw_smooth_line_avoiding_entities(
        &self,
        canvas: &mut Vec<Vec<char>>,
        from: (u16, u16),
        to: (u16, u16),
        entity_areas: &Vec<Rect>,
        area: Rect,
    )
        ensures
            same_dims(old(canvas).deep_view(), final(canvas).deep_view()),
            forall|r: int, c: int|
                0 <= r < old(canvas).deep_view().len() && 0 <= c < old(canvas).deep_view()[r].len()
                ==> #[trigger] final(canvas).deep_view()[r][c] == smooth_cell(
                    old(canvas).deep_view()[r][c],
                    entity_areas@,
                    from.0 as int,
                    from.1 as int,
                    to.0 as int,
                    to.1 as int,
                    area,
                    c,
                    r,
                ),
            lines_overlay(old(canvas).deep_view(), final(canvas).deep_view(), entity_areas@),
    {
        let dx: i64 = (to.0 as i64) - (from.0 as i64);
        let dy: i64 = (to.1 as i64) - (from.1 as i64);

        if dx == 0 && dy == 0 {
            return;
        }
        if dx == 0 {
            self.draw_vertical_line_avoiding_entities(canvas, from, to, entity_areas, area);
            return;
        }
        if dy == 0 {
            self.draw_horizontal_line_avoiding_entities(canvas, from, to, entity_areas, area);
            return;
        }
        let adx = if dx >= 0 { dx } else { -dx };
        let ady = if dy >= 0 { dy } else { -dy };
        if adx <= 2 && ady <= 2 {
            self.draw_direct_line_avoiding_entities(canvas, from, to, entity_areas, area);
            return;
        }
        self.draw_three_segment_line_avoiding_entities(canvas, from, to, entity_areas, area);
    }
}

/// Every corner glyph of the direction table is a line glyph.
proof fn lemma_corner_is_line_glyph()
    ensures
        forall|a: int, b: int, c: int, d: int| is_line_glyph(#[trigger] corner_char_for(a, b, c, d)),
{
    assert forall|a: int, b: int, c: int, d: int|
        is_line_glyph(#[trigger] corner_char_for(a, b, c, d)) by {}
}

/// The index that `column_index_or_zero` yields is within the columns,
/// or zero.
proof fn lemma_column_index_bound(cs: Seq<Column>, name: Seq<char>)
    ensures
        0 <= column_index_or_zero(cs, name) <= cs.len(),
    decreases cs.len(),
{
    if cs.len() > 0 && cs[0].name@ != name {
        lemma_column_index_bound(cs.drop_first(), name);
    }
}

/// When the first match sits at `j`, `column_index_or_zero` yields `j`.
proof fn lemma_column_index_found(cs: Seq<Column>, name: Seq<char>, j: int)
    requires
        0 <= j < cs.len(),
        cs[j].name@ == name,
        forall|k: int| 0 <= k < j ==> (#[trigger] cs[k]).name@ != name,
    ensures
        column_index_or_zero(cs, name) == j,
    decreases j,
{
    if j > 0 {
        assert(cs.drop_first()[j - 1] == cs[j]);
        assert forall|k: int| 0 <= k < j - 1 implies (#[trigger] cs.drop_first()[k]).name@ != name by {
            assert(cs.drop_first()[k] == cs[k + 1]);
        }
        lemma_column_index_found(cs.drop_first(), name, j - 1);
        assert(exists|q: int| 0 <= q < cs.len() && (#[trigger] cs[q]).name@ == name) by {
            assert(cs[j].name@ == name);
        }
        if j - 1 == 0 {
            assert(exists|q: int| 0 <= q < cs.drop_first().len()
                && (#[trigger] cs.drop_first()[q]).name@ == name) by {
                assert(cs.drop_first()[j - 1].name@ == name);
            }
        }
    }
}

/// Without a match, `column_index_or_zero` falls back to zero.
proof fn lemma_column_index_missing(cs: Seq<Column>, name: Seq<char>)
    requires
        forall|k: int| 0 <= k < cs.len() ==> (#[trigger] cs[k]).name@ != name,
    ensures
        column_index_or_zero(cs, name) == 0,
    decreases cs.len(),
{
    if cs.len() > 0 {
        assert forall|k: int| 0 <= k < cs.drop_first().len()
            implies (#[trigger] cs.drop_first()[k]).name@ != name by {
            assert(cs.drop_first()[k] == cs[k + 1]);
        }
        lemma_column_index_missing(cs.drop_first(), name);
    }
}


/// Key-indicator glyph of a column: primary keys, foreign keys and
/// plain columns each get their own prefix.
pub open spec fn key_glyph(c: Column) -> char {
    if c.is_primary_key {
        '*'
    } else if c.is_foreign_key {
        '+'
    } else {
        ' '
    }
}

/// The text of a column's row: key indicator, space, name, space,
/// declared type, and a question mark for a nullable column.
pub open spec fn column_row_text(c: Column) -> Seq<char> {
    seq![key_glyph(c), ' '] + c.name@ + seq![' '] + c.data_type@
        + (if c.nullable { seq!['?'] } else { Seq::<char>::empty() })
}

/// Character of `s` at text offset `off` of a widget row, `None` once
/// the text ends or the interior width is exhausted.
pub open spec fn widget_text_char(s: Seq<char>, off: int, interior: int) -> Option<char> {
    if 0 <= off < s.len() && off < interior {
        Some(s[off])
    } else {
        None
    }
}

/// What the widget of entity `e` in rectangle `area` writes at a cell:
/// borders with the title in the top border row, one row per column,
/// `None` outside or where the cell is left alone.  Degenerate
/// rectangles write nothing.
pub open spec fn widget_cell(e: Entity, area: Rect, cx: int, cy: int) -> Option<char> {
    let left = area.x as int;
    let right = area.x + area.width - 1;
    let top = area.y as int;
    let bottom = area.y + area.height - 1;
    if area.width < 2 || area.height < 2 {
        None
    } else if cx < left || cx > right || cy < top || cy > bottom {
        None
    } else if cy == top {
        if cx == left {
            Some('\u{250c}')
        } else if cx == right {
            Some('\u{2510}')
        } else {
            match widget_text_char(e.name@, cx - left - 1, area.width - 2) {
                Some(ch) => Some(ch),
                None => Some('\u{2500}'),
            }
        }
    } else if cy == bottom {
        Some(if cx == left { '\u{2514}' } else if cx == right { '\u{2518}' } else { '\u{2500}' })
    } else {
        if cx == left || cx == right {
            Some('\u{2502}')
        } else {
            let j = cy - top - 1;
            if j < e.columns@.len() {
                widget_text_char(column_row_text(e.columns@[j]), cx - left - 1, area.width - 2)
            } else {
                None
            }
        }
    }
}

/// The rectangle that `calculate_entity_area` assigns, as a function of
/// the renderer's coordinate space.
pub open spec fn entity_area_spec(w: u16, h: u16, e: Entity, canvas_area: Rect) -> Rect {
    let sx = e.position.x * canvas_area.width / (w as int) + canvas_area.x;
    let sy = e.position.y * canvas_area.height / (h as int) + canvas_area.y;
    Rect {
        x: (if sx <= 0xFFFF { sx } else { 0xFFFF as int }) as u16,
        y: (if sy <= 0xFFFF { sy } else { 0xFFFF as int }) as u16,
        width: min_int(e.dimensions.width as int, canvas_area.width as int / 4) as u16,
        height: min_int(e.dimensions.height as int, canvas_area.height as int / 4) as u16,
    }
}

/// What the whole entity list writes at a cell; a later widget wins over
/// an earlier one, matching paint order.
pub open spec fn widget_covered(es: Seq<Entity>, w: u16, h: u16, carea: Rect, cx: int, cy: int) -> Option<char>
    decreases es.len(),
{
    if es.len() == 0 {
        None
    } else {
        match widget_cell(es.last(), entity_area_spec(w, h, es.last(), carea), cx, cy) {
            Some(g) => Some(g),
            None => widget_covered(es.drop_last(), w, h, carea, cx, cy),
        }
    }
}

/// Grid `b` is grid `a` with the widgets of `es` painted on.
pub open spec fn widgets_painted(
    a: Seq<Seq<char>>,
    b: Seq<Seq<char>>,
    es: Seq<Entity>,
    w: u16,
    h: u16,
    carea: Rect,
) -> bool {
    &&& same_dims(a, b)
    &&& forall|r: int, c: int| 0 <= r < a.len() && 0 <= c < a[r].len()
        ==> #[trigger] b[r][c] == match widget_covered(es, w, h, carea, c, r) {
            Some(g) => g,
            None => a[r][c],
        }
}

/// The rectangles of all entities, in entity order.
pub open spec fn entity_areas_spec(es: Seq<Entity>, w: u16, h: u16, carea: Rect) -> Seq<Rect> {
    Seq::new(es.len(), |i: int| entity_area_spec(w, h, es[i], carea))
}

/// Character of a column's row at text offset `off`, truncated to the
/// interior width.
fn row_char_at(c: &Column, off: usize, interior: usize) -> (r: Option<char>)
    ensures
        r == widget_text_char(column_row_text(*c), off as int, interior as int),
{
    let ghost text = column_row_text(*c);
    if off >= interior {
        return None;
    }
    if off == 0 {
        let key = if c.is_primary_key {
            '*'
        } else if c.is_foreign_key {
            '+'
        } else {
            ' '
        };
        proof {
            assert(text[0] == key_glyph(*c));
        }
        return Some(key);
    }
    if off == 1 {
        proof {
            assert(text[1] == ' ');
        }
        return Some(' ');
    }
    let o2 = off - 2;
    let nl = c.name.as_str().unicode_len();
    if o2 < nl {
        let ch = c.name.as_str().get_char(o2);
        proof {
            assert(text[off as int] == c.name@[o2 as int]);
        }
        return Some(ch);
    }
    let o3 = o2 - nl;
    if o3 == 0 {
        proof {
            assert(text[off as int] == ' ');
        }
        return Some(' ');
    }
    let o4 = o3 - 1;
    let tl = c.data_type.as_str().unicode_len();
    if o4 < tl {
        let ch = c.data_type.as_str().get_char(o4);
        proof {
            assert(text[off as int] == c.data_type@[o4 as int]);
        }
        return Some(ch);
    }
    if c.nullable && o4 == tl {
        proof {
            assert(text[off as int] == '?');
        }
        return Some('?');
    }
    proof {
        assert(off >= text.len());
    }
    None
}

impl DiagramRenderer {
    /// Compute `widget_cell` executably.
    fn widget_cell_at(&self, e: &Entity, area: Rect, cx: u32, cy: u32) -> (r: Option<char>)
        ensures
            r == widget_cell(*e, area, cx as int, cy as int),
    {
        if area.width < 2 || area.height < 2 {
            return None;
        }
        let left = area.x as u32;
        let right = area.x as u32 + area.width as u32 - 1;
        let top = area.y as u32;
        let bottom = area.y as u32 + area.height as u32 - 1;
        let x = cx;
        let y = cy;
        if x < left || x > right || y < top || y > bottom {
            None
        } else if y == top {
            if x == left {
                Some('\u{250c}')
            } else if x == right {
                Some('\u{2510}')
            } else {
                match title_char_at(&e.name, (x - left - 1) as usize, (area.width - 2) as usize) {
                    Some(ch) => Some(ch),
                    None => Some('\u{2500}'),
                }
            }
        } else if y == bottom {
            Some(if x == left { '\u{2514}' } else if x == right { '\u{2518}' } else { '\u{2500}' })
        } else {
            if x == left || x == right {
                Some('\u{2502}')
            } else {
                let j = (y - top - 1) as usize;
                if j < e.columns.len() {
                    row_char_at(&e.columns[j], (x - left - 1) as usize, (area.width - 2) as usize)
                } else {
                    None
                }
            }
        }
    }

    /// Paint one entity's widget into its rectangle; the selection flag
    /// matters to colors only, never to the glyphs, so the output is the
    /// same either way.
    pub fn render_single_entity(
        &self,
        canvas: &mut Vec<Vec<char>>,
        entity: &Entity,
        area: Rect,
        is_selected: bool,
    )
        ensures
            same_dims(old(canvas).deep_view(), final(canvas).deep_view()),
            forall|r: int, c: int|
                0 <= r < old(canvas).deep_view().len() && 0 <= c < old(canvas).deep_view()[r].len()
                ==> #[trigger] final(canvas).deep_view()[r][c] == match widget_cell(
                    *entity,
                    area,
                    c,
                    r,
                ) {
                    Some(g) => g,
                    None => old(canvas).deep_view()[r][c],
                },
    {
        let ghost a = canvas.deep_view();
        let _ = is_selected;
        let mut dy: u16 = 0;
        while dy < area.height
            invariant
                0 <= dy <= area.height,
                same_dims(a, canvas.deep_view()),
                forall|r: int, c: int| 0 <= r < a.len() && 0 <= c < a[r].len()
                    ==> #[trigger] canvas.deep_view()[r][c] == (
                        if r < area.y + dy && widget_cell(*entity, area, c, r) is Some {
                            widget_cell(*entity, area, c, r)->Some_0
                        } else {
                            a[r][c]
                        }),
            decreases area.height - dy,
        {
            let row: u32 = area.y as u32 + dy as u32;
            let mut dx: u16 = 0;
            while dx < area.width
                invariant
                    0 <= dy < area.height,
                    row == area.y + dy,
                    0 <= dx <= area.width,
                    same_dims(a, canvas.deep_view()),
                    forall|r: int, c: int| 0 <= r < a.len() && 0 <= c < a[r].len()
                        ==> #[trigger] canvas.deep_view()[r][c] == (
                            if (r < area.y + dy || (r == area.y + dy && c < area.x + dx))
                                && widget_cell(*entity, area, c, r) is Some {
                                widget_cell(*entity, area, c, r)->Some_0
                            } else {
                                a[r][c]
                            }),
                decreases area.width - dx,
            {
                let col: u32 = area.x as u32 + dx as u32;
                match self.widget_cell_at(entity, area, col, row) {
                    Some(g) => {
                        put_cell(canvas, col as usize, row as usize, g);
                    }
                    None => {}
                }
                dx += 1;
            }
            proof {
                assert forall|r: int, c: int| 0 <= r < a.len() && 0 <= c < a[r].len()
                    implies #[trigger] canvas.deep_view()[r][c] == (
                        if r < area.y + dy + 1 && widget_cell(*entity, area, c, r) is Some {
                            widget_cell(*entity, area, c, r)->Some_0
                        } else {
                            a[r][c]
                        }) by {
                    if r == area.y + dy && widget_cell(*entity, area, c, r) is Some {
                        assert(area.x <= c <= area.x + area.width - 1);
                    }
                }
            }
            dy += 1;
        }
        proof {
            assert forall|r: int, c: int| 0 <= r < a.len() && 0 <= c < a[r].len()
                implies #[trigger] canvas.deep_view()[r][c] == match widget_cell(*entity, area, c, r) {
                    Some(g) => g,
                    None => a[r][c],
                } by {
                if widget_cell(*entity, area, c, r) is Some {
                    assert(area.y <= r <= area.y + area.height - 1);
                }
            }
        }
    }

    /// Paint every entity's widget, in order.
    pub fn render_entities(
        &self,
        canvas: &mut Vec<Vec<char>>,
        schema: &Schema,
        area: Rect,
        selected_entity: &Option<String>,
    )
        requires
            self.width() >= 1,
            self.height() >= 1,
            forall|i: int| 0 <= i < schema.entities@.len()
                ==> 0 <= (#[trigger] schema.entities@[i]).position.x <= POSITION_LIMIT
                    && 0 <= schema.entities@[i].position.y <= POSITION_LIMIT,
        ensures
            widgets_painted(
                old(canvas).deep_view(),
                final(canvas).deep_view(),
                schema.entities@,
                self.width(),
                self.height(),
                area,
            ),
    {
        let ghost a = canvas.deep_view();
        let n = schema.entities.len();
        let mut i: usize = 0;
        proof {
            assert(schema.entities@.take(0) =~= Seq::<Entity>::empty());
        }
        while i < n
            invariant
                self.width() >= 1,
                self.height() >= 1,
                n == schema.entities@.len(),
                forall|k: int| 0 <= k < schema.entities@.len()
                    ==> 0 <= (#[trigger] schema.entities@[k]).position.x <= POSITION_LIMIT
                        && 0 <= schema.entities@[k].position.y <= POSITION_LIMIT,
                0 <= i <= n,
                widgets_painted(
                    a,
                    canvas.deep_view(),
                    schema.entities@.take(i as int),
                    self.width(),
                    self.height(),
                    area,
                ),
            decreases n - i,
        {
            let entity = &schema.entities[i];
            let entity_area = self.calculate_entity_area(entity, area);
            let is_selected = match selected_entity {
                Some(name) => *name == entity.name,
                None => false,
            };
            let ghost b = canvas.deep_view();
            self.render_single_entity(canvas, entity, entity_area, is_selected);
            proof {
                let es = schema.entities@.take(i as int);
                let es1 = schema.entities@.take(i + 1);
                assert(es1.drop_last() =~= es);
                assert(es1.last() == schema.entities@[i as int]);
                lemma_widgets_painted_step(
                    a,
                    b,
                    canvas.deep_view(),
                    es,
                    schema.entities@[i as int],
                    self.width(),
                    self.height(),
                    area,
                );
            }
            i += 1;
        }
        proof {
            assert(schema.entities@.take(n as int) =~= schema.entities@);
        }
    }

    /// Draw one relationship's line between its two columns, stepping
    /// around every entity rectangle.
    fn render_relationship_line(
        &self,
        canvas: &mut Vec<Vec<char>>,
        from_entity: &Entity,
        to_entity: &Entity,
        from_column: &String,
        to_column: &String,
        entity_areas: &Vec<Rect>,
        area: Rect,
    )
        requires
            self.width() >= 1,
            self.height() >= 1,
            0 <= from_entity.position.x <= POSITION_LIMIT,
            0 <= from_entity.position.y <= POSITION_LIMIT,
            0 <= to_entity.position.x <= POSITION_LIMIT,
            0 <= to_entity.position.y <= POSITION_LIMIT,
        ensures
            same_dims(old(canvas).deep_view(), final(canvas).deep_view()),
            forall|r: int, c: int|
                0 <= r < old(canvas).deep_view().len() && 0 <= c < old(canvas).deep_view()[r].len()
                ==> #[trigger] final(canvas).deep_view()[r][c] == rel_line_cell(
                    old(canvas).deep_view()[r][c],
                    *from_entity,
                    *to_entity,
                    from_column@,
                    to_column@,
                    entity_areas@,
                    self.width(),
                    self.height(),
                    area,
                    c,
                    r,
                ),
            lines_overlay(old(canvas).deep_view(), final(canvas).deep_view(), entity_areas@),
    {
        let ghost a = canvas.deep_view();
        let from_area = self.calculate_entity_area(from_entity, area);
        let to_area = self.calculate_entity_area(to_entity, area);

        // Skip geometry the connection arithmetic cannot hold.
        if (from_area.x as u32) + (from_area.width as u32) > 60_000
            || (from_area.y as u32) + (from_area.height as u32) > 60_000
            || (to_area.x as u32) + (to_area.width as u32) > 60_000
            || (to_area.y as u32) + (to_area.height as u32) > 60_000
            || from_entity.columns.len() > 5_000 || to_entity.columns.len() > 5_000 {
            proof {
                assert(!rel_guard_ok(from_area, to_area, *from_entity, *to_entity));
            }
            return;
        }

        let (from_point, to_point) = self.calculate_column_connection_points(
            from_entity,
            to_entity,
            from_column,
            to_column,
            &from_area,
            &to_area,
        );

        self.draw_smooth_line_avoiding_entities(canvas, from_point, to_point, entity_areas, area);
        let ghost g1 = canvas.deep_view();
        self.draw_arrow_head(canvas, to_point, from_point, entity_areas, area);
        proof {
            lemma_lines_overlay_trans(a, g1, canvas.deep_view(), entity_areas@);
            let p = conn_points_spec(
                *from_entity, *to_entity, from_column@, to_column@, from_area, to_area,
            );
            assert forall|r: int, c: int| 0 <= r < a.len() && 0 <= c < a[r].len()
                implies #[trigger] canvas.deep_view()[r][c] == rel_line_cell(
                    a[r][c],
                    *from_entity,
                    *to_entity,
                    from_column@,
                    to_column@,
                    entity_areas@,
                    self.width(),
                    self.height(),
                    area,
                    c,
                    r,
                ) by {
                assert(g1[r][c] == smooth_cell(
                    a[r][c], entity_areas@, p.0.0, p.0.1, p.1.0, p.1.1, area, c, r,
                ));
                assert(canvas.deep_view()[r][c] == arrow_cell(
                    g1[r][c], entity_areas@, p.1, p.0, area, c, r,
                ));
            }
        }
    }

    /// Collect every entity's rectangle, in entity order.
    fn collect_entity_areas(&self, schema: &Schema, area: Rect) -> (v: Vec<Rect>)
        requires
            self.width() >= 1,
            self.height() >= 1,
            forall|i: int| 0 <= i < schema.entities@.len()
                ==> 0 <= (#[trigger] schema.entities@[i]).position.x <= POSITION_LIMIT
                    && 0 <= schema.entities@[i].position.y <= POSITION_LIMIT,
        ensures
            v@ =~= entity_areas_spec(schema.entities@, self.width(), self.height(), area),
    {
        let n = schema.entities.len();
        let mut v: Vec<Rect> = Vec::new();
        let mut i: usize = 0;
        while i < n
            invariant
                self.width() >= 1,
                self.height() >= 1,
                n == schema.entities@.len(),
                forall|k: int| 0 <= k < schema.entities@.len()
                    ==> 0 <= (#[trigger] schema.entities@[k]).position.x <= POSITION_LIMIT
                        && 0 <= schema.entities@[k].position.y <= POSITION_LIMIT,
                0 <= i <= n,
                v@.len() == i,
                forall|k: int| 0 <= k < i
                    ==> #[trigger] v@[k] == entity_area_spec(
                        self.width(),
                        self.height(),
                        schema.entities@[k],
                        area,
                    ),
            decreases n - i,
        {
            let r = self.calculate_entity_area(&schema.entities[i], area);
            v.push(r);
            i += 1;
        }
        v
    }

    /// Draw every relationship whose two tables exist; dangling edges
    /// are skipped, never an error.
    pub fn render_relationships(&self, canvas: &mut Vec<Vec<char>>, schema: &Schema, area: Rect)
        requires
            self.width() >= 1,
            self.height() >= 1,
            forall|i: int| 0 <= i < schema.entities@.len()
                ==> 0 <= (#[trigger] schema.entities@[i]).position.x <= POSITION_LIMIT
                    && 0 <= schema.entities@[i].position.y <= POSITION_LIMIT,
        ensures
            final(canvas).deep_view() == rels_drawn(
                old(canvas).deep_view(),
                *schema,
                self.width(),
                self.height(),
                area,
                schema.relationships@.len() as int,
            ),
            lines_overlay(
                old(canvas).deep_view(),
                final(canvas).deep_view(),
                entity_areas_spec(schema.entities@, self.width(), self.height(), area),
            ),
    {
        let ghost a = canvas.deep_view();
        let entity_areas = self.collect_entity_areas(schema, area);
        let m = schema.relationships.len();
        let mut e: usize = 0;
        while e < m
            invariant
                self.width() >= 1,
                self.height() >= 1,
                m == schema.relationships@.len(),
                forall|k: int| 0 <= k < schema.entities@.len()
                    ==> 0 <= (#[trigger] schema.entities@[k]).position.x <= POSITION_LIMIT
                        && 0 <= schema.entities@[k].position.y <= POSITION_LIMIT,
                entity_areas@ =~= entity_areas_spec(
                    schema.entities@,
                    self.width(),
                    self.height(),
                    area,
                ),
                0 <= e <= m,
                canvas.deep_view() == rels_drawn(a, *schema, self.width(), self.height(), area, e as int),
                lines_overlay(a, canvas.deep_view(), entity_areas@),
            decreases m - e,
        {
            let ghost before = canvas.deep_view();
            let rel = &schema.relationships[e];
            let from = schema.get_entity(&rel.from_table);
            match from {
                Some(from_entity) => {
                    proof {
                        crate::models::lemma_entity_index_of_properties(
                            schema.entities@,
                            rel.from_table@,
                        );
                    }
                    match schema.get_entity(&rel.to_table) {
                        Some(to_entity) => {
                            proof {
                                crate::models::lemma_entity_index_of_properties(
                                    schema.entities@,
                                    rel.to_table@,
                                );
                            }
                            let ghost g0 = canvas.deep_view();
                            self.render_relationship_line(
                                canvas,
                                from_entity,
                                to_entity,
                                &rel.from_column,
                                &rel.to_column,
                                &entity_areas,
                                area,
                            );
                            proof {
                                lemma_lines_overlay_trans(a, g0, canvas.deep_view(), entity_areas@);
                                assert(canvas.deep_view() =~~= schema_rel_grid(
                                    before,
                                    *schema,
                                    self.width(),
                                    self.height(),
                                    area,
                                    e as int,
                                ));
                            }
                        }
                        None => {
                            proof {
                                assert(canvas.deep_view() =~~= schema_rel_grid(
                                    before,
                                    *schema,
                                    self.width(),
                                    self.height(),
                                    area,
                                    e as int,
                                ));
                            }
                        }
                    }
                }
                None => {
                    proof {
                        assert(canvas.deep_view() =~~= schema_rel_grid(
                            before,
                            *schema,
                            self.width(),
                            self.height(),
                            area,
                            e as int,
                        ));
                    }
                }
            }
            e += 1;
        }
    }

    /// Render the whole schema: every entity's widget, then every
    /// relationship's line over them.  An empty schema leaves the canvas
    /// untouched.
    pub fn render(
        &self,
        canvas: &mut Vec<Vec<char>>,
        schema: &Schema,
        area: Rect,
        selected_entity: &Option<String>,
    )
        requires
            self.width() >= 1,
            self.height() >= 1,
            forall|i: int| 0 <= i < schema.entities@.len()
                ==> 0 <= (#[trigger] schema.entities@[i]).position.x <= POSITION_LIMIT
                    && 0 <= schema.entities@[i].position.y <= POSITION_LIMIT,
        ensures
            schema.entities@.len() == 0 ==> final(canvas).deep_view() == old(canvas).deep_view(),
            schema.entities@.len() > 0 ==> final(canvas).deep_view() == rels_drawn(
                widgets_grid(
                    old(canvas).deep_view(),
                    schema.entities@,
                    self.width(),
                    self.height(),
                    area,
                ),
                *schema,
                self.width(),
                self.height(),
                area,
                schema.relationships@.len() as int,
            ),
            schema.entities@.len() > 0 ==> exists|mid: Seq<Seq<char>>|
                widgets_painted(
                    old(canvas).deep_view(),
                    mid,
                    schema.entities@,
                    self.width(),
                    self.height(),
                    area,
                ) && lines_overlay(
                    mid,
                    final(canvas).deep_view(),
                    entity_areas_spec(schema.entities@, self.width(), self.height(), area),
                ),
    {
        if schema.entities.len() == 0 {
            return;
        }
        self.render_entities(canvas, schema, area, selected_entity);
        let ghost mid = canvas.deep_view();
        self.render_relationships(canvas, schema, area);
        proof {
            assert(mid =~~= widgets_grid(
                old(canvas).deep_view(),
                schema.entities@,
                self.width(),
                self.height(),
                area,
            ));
            assert(widgets_painted(
                old(canvas).deep_view(),
                mid,
                schema.entities@,
                self.width(),
                self.height(),
                area,
            ) && lines_overlay(
                mid,
                canvas.deep_view(),
                entity_areas_spec(schema.entities@, self.width(), self.height(), area),
            ));
        }
    }
}

/// Character of the entity name shown in the top border at text offset
/// `off`, truncated to the interior width.
fn title_char_at(s: &String, off: usize, interior: usize) -> (r: Option<char>)
    ensures
        r == widget_text_char(s@, off as int, interior as int),
{
    if off >= interior {
        return None;
    }
    let len = s.as_str().unicode_len();
    if off < len {
        Some(s.as_str().get_char(off))
    } else {
        None
    }
}


/// Painting one more widget over an already painted grid extends the
/// paint relation by that entity.
proof fn lemma_widgets_painted_step(
    a: Seq<Seq<char>>,
    b: Seq<Seq<char>>,
    c: Seq<Seq<char>>,
    es: Seq<Entity>,
    e: Entity,
    w: u16,
    h: u16,
    carea: Rect,
)
    requires
        widgets_painted(a, b, es, w, h, carea),
        same_dims(b, c),
        forall|r: int, col: int| 0 <= r < b.len() && 0 <= col < b[r].len()
            ==> #[trigger] c[r][col] == match widget_cell(e, entity_area_spec(w, h, e, carea), col, r) {
                Some(g) => g,
                None => b[r][col],
            },
    ensures
        widgets_painted(a, c, es.push(e), w, h, carea),
{
    assert forall|r: int, col: int| 0 <= r < a.len() && 0 <= col < a[r].len()
        implies #[trigger] c[r][col] == match widget_covered(es.push(e), w, h, carea, col, r) {
            Some(g) => g,
            None => a[r][col],
        } by {
        assert(es.push(e).last() == e);
        assert(es.push(e).drop_last() =~= es);
    }
}

} // verus!
