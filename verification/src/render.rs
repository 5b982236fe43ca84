//! Painting entity boxes onto the character canvas.
//!
//! Every box is `ENTITY_WIDTH` cells wide and `attributes + 4` cells
//! tall: top border, title row, separator, one row per attribute, bottom
//! border.  Text longer than the interior is truncated, never wrapped,
//! and cells that fall outside the canvas are clipped.  The whole pass is
//! specified cell by cell, which is what makes the renderer provably
//! idempotent: a painted cell gets a value that depends only on the
//! entities, never on what the canvas held before.

use vstd::prelude::*;

use crate::canvas::{put_cell, put_spec, same_dims};
use crate::engine::{Attribute, Entity, ENTITY_WIDTH};

verus! {

/// Largest coordinate (and attribute count) the renderer accepts; keeps
/// every cell address well inside `usize` on any platform.
pub const COORD_MAX: usize = 0x20_0000;

/// An entity whose box arithmetic cannot overflow.
pub open spec fn entity_fits(e: Entity) -> bool {
    e.x <= COORD_MAX && e.y <= COORD_MAX && e.attributes@.len() <= COORD_MAX
}

/// Character of `s` shown at text offset `off` of a box row, `None` once
/// the text ends or the interior width is exhausted (truncation).
pub open spec fn interior_text_char(s: Seq<char>, off: int) -> Option<char> {
    if 0 <= off < s.len() && off < ENTITY_WIDTH - 2 {
        Some(s[off])
    } else {
        None
    }
}

/// What entity `e` writes at column `cx`, row `cy`: a border, separator
/// or text glyph, or `None` where `e` leaves the cell alone.
pub open spec fn entity_cell(e: Entity, cx: int, cy: int) -> Option<char> {
    let left = e.x as int;
    let right = e.x + ENTITY_WIDTH - 1;
    let top = e.y as int;
    let bottom = e.y + e.attributes@.len() + 3;
    if cx < left || cx > right || cy < top || cy > bottom {
        None
    } else if cy == top {
        Some(if cx == left { '┌' } else if cx == right { '┐' } else { '─' })
    } else if cy == top + 1 {
        if cx == left || cx == right {
            Some('│')
        } else {
            interior_text_char(e.name@, cx - left - 1)
        }
    } else if cy == top + 2 {
        Some(if cx == left { '├' } else if cx == right { '┤' } else { '─' })
    } else if cy == bottom {
        Some(if cx == left { '└' } else if cx == right { '┘' } else { '─' })
    } else {
        if cx == left || cx == right {
            Some('│')
        } else {
            interior_text_char(e.attributes@[cy - top - 3].name@, cx - left - 1)
        }
    }
}

/// What the whole entity list writes at a cell; a later entity wins over
/// an earlier one, matching paint order.
pub open spec fn covered_char(es: Seq<Entity>, cx: int, cy: int) -> Option<char>
    decreases es.len(),
{
    if es.len() == 0 {
        None
    } else {
        match entity_cell(es.last(), cx, cy) {
            Some(g) => Some(g),
            None => covered_char(es.drop_last(), cx, cy),
        }
    }
}

/// Grid `b` is grid `a` with the boxes of `es` painted on: written cells
/// hold the glyph that `covered_char` gives, all others are untouched.
pub open spec fn boxes_painted(a: Seq<Seq<char>>, b: Seq<Seq<char>>, es: Seq<Entity>) -> bool {
    &&& same_dims(a, b)
    &&& forall|r: int, c: int| 0 <= r < a.len() && 0 <= c < a[r].len()
        ==> #[trigger] b[r][c] == match covered_char(es, c, r) {
            Some(g) => g,
            None => a[r][c],
        }
}

/// Painting is idempotent: the glyph of a painted cell depends on the
/// entities alone, so a second pass over an already painted grid changes
/// nothing.  This is the renderer's byte-identical re-run property.
pub proof fn lemma_render_idempotent(
    a: Seq<Seq<char>>,
    b: Seq<Seq<char>>,
    c: Seq<Seq<char>>,
    es: Seq<Entity>,
)
    requires
        boxes_painted(a, b, es),
        boxes_painted(b, c, es),
    ensures
        c =~~= b,
{
    assert forall|r: int, col: int| 0 <= r < b.len() && 0 <= col < b[r].len()
        implies c[r][col] == b[r][col] by {
        assert(b[r][col] == match covered_char(es, col, r) {
            Some(g) => g,
            None => a[r][col],
        });
        assert(c[r][col] == match covered_char(es, col, r) {
            Some(g) => g,
            None => b[r][col],
        });
    }
    assert forall|r: int| 0 <= r < c.len() implies c[r].len() == b[r].len() by {}
}

/// Compute `entity_cell` executably.
fn entity_cell_at(e: &Entity, cx: usize, cy: usize) -> (r: Option<char>)
    requires
        entity_fits(*e),
        cx <= 3 * COORD_MAX,
        cy <= 3 * COORD_MAX,
    ensures
        r == entity_cell(*e, cx as int, cy as int),
{
    let left = e.x;
    let right = e.x + ENTITY_WIDTH - 1;
    let top = e.y;
    let bottom = e.y + e.attributes.len() + 3;
    if cx < left || cx > right || cy < top || cy > bottom {
        None
    } else if cy == top {
        Some(if cx == left { '┌' } else if cx == right { '┐' } else { '─' })
    } else if cy == top + 1 {
        if cx == left || cx == right {
            Some('│')
        } else {
            text_char_at(&e.name, cx - left - 1)
        }
    } else if cy == top + 2 {
        Some(if cx == left { '├' } else if cx == right { '┤' } else { '─' })
    } else if cy == bottom {
        Some(if cx == left { '└' } else if cx == right { '┘' } else { '─' })
    } else {
        if cx == left || cx == right {
            Some('│')
        } else {
            text_char_at(&e.attributes[cy - top - 3].name, cx - left - 1)
        }
    }
}

/// Character shown at text offset `off` of a row, with truncation.
fn text_char_at(s: &String, off: usize) -> (r: Option<char>)
    ensures
        r == interior_text_char(s@, off as int),
{
    if off >= ENTITY_WIDTH - 2 {
        return None;
    }
    let len = s.as_str().unicode_len();
    if off < len {
        Some(s.as_str().get_char(off))
    } else {
        None
    }
}

/// Paint one entity's box onto the canvas; writes outside the canvas are
/// clipped.
fn draw_entity(canvas: &mut Vec<Vec<char>>, e: &Entity)
    requires
        entity_fits(*e),
    ensures
        same_dims(old(canvas).deep_view(), final(canvas).deep_view()),
        forall|r: int, c: int|
            0 <= r < old(canvas).deep_view().len() && 0 <= c < old(canvas).deep_view()[r].len()
            ==> #[trigger] final(canvas).deep_view()[r][c] == match entity_cell(*e, c, r) {
                Some(g) => g,
                None => old(canvas).deep_view()[r][c],
            },
{
    let ghost a = canvas.deep_view();
    let height = e.attributes.len() + 4;
    let mut dy: usize = 0;
    while dy < height
        invariant
            entity_fits(*e),
            height == e.attributes@.len() + 4,
            0 <= dy <= height,
            same_dims(a, canvas.deep_view()),
            forall|r: int, c: int| 0 <= r < a.len() && 0 <= c < a[r].len()
                ==> #[trigger] canvas.deep_view()[r][c] == (
                    if r < e.y + dy && entity_cell(*e, c, r) is Some {
                        entity_cell(*e, c, r)->Some_0
                    } else {
                        a[r][c]
                    }),
        decreases height - dy,
    {
        let row = e.y + dy;
        let mut dx: usize = 0;
        while dx < ENTITY_WIDTH
            invariant
                entity_fits(*e),
                height == e.attributes@.len() + 4,
                0 <= dy < height,
                row == e.y + dy,
                0 <= dx <= ENTITY_WIDTH,
                same_dims(a, canvas.deep_view()),
                forall|r: int, c: int| 0 <= r < a.len() && 0 <= c < a[r].len()
                    ==> #[trigger] canvas.deep_view()[r][c] == (
                        if (r < e.y + dy || (r == e.y + dy && c < e.x + dx))
                            && entity_cell(*e, c, r) is Some {
                            entity_cell(*e, c, r)->Some_0
                        } else {
                            a[r][c]
                        }),
            decreases ENTITY_WIDTH - dx,
        {
            let col = e.x + dx;
            match entity_cell_at(e, col, row) {
                Some(g) => {
                    put_cell(canvas, col, row, g);
                }
                None => {}
            }
            dx += 1;
        }
        proof {
            assert forall|r: int, c: int| 0 <= r < a.len() && 0 <= c < a[r].len()
                implies #[trigger] canvas.deep_view()[r][c] == (
                    if r < e.y + dy + 1 && entity_cell(*e, c, r) is Some {
                        entity_cell(*e, c, r)->Some_0
                    } else {
                        a[r][c]
                    }) by {
                if r == e.y + dy && entity_cell(*e, c, r) is Some {
                    assert(e.x <= c <= e.x + ENTITY_WIDTH - 1);
                }
            }
        }
        dy += 1;
    }
    proof {
        assert forall|r: int, c: int| 0 <= r < a.len() && 0 <= c < a[r].len()
            implies #[trigger] canvas.deep_view()[r][c] == match entity_cell(*e, c, r) {
                Some(g) => g,
                None => a[r][c],
            } by {
            if entity_cell(*e, c, r) is Some {
                assert(e.y <= r <= e.y + e.attributes@.len() + 3);
            }
        }
    }
}

/// All rows of the grid joined with newlines.
pub open spec fn joined_rows(g: Seq<Seq<char>>) -> Seq<char>
    decreases g.len(),
{
    if g.len() == 0 {
        Seq::empty()
    } else if g.len() == 1 {
        g[0]
    } else {
        joined_rows(g.drop_last()) + seq!['\n'] + g.last()
    }
}

/// Relies on `String::push`: appends exactly one character.
#[verifier::external_body]
fn push_char(s: &mut String, c: char)
    ensures
        final(s)@ == old(s)@.push(c),
{
    s.push(c);
}

/// Serialize the canvas: rows joined by newlines.
pub fn canvas_text(canvas: &Vec<Vec<char>>) -> (s: String)
    ensures
        s@ == joined_rows(canvas.deep_view()),
{
    let ghost g = canvas.deep_view();
    let mut s = String::new();
    let n = canvas.len();
    let mut r: usize = 0;
    proof {
        assert(g.take(0) =~= Seq::<Seq<char>>::empty());
    }
    while r < n
        invariant
            n == canvas@.len(),
            g == canvas.deep_view(),
            0 <= r <= n,
            s@ =~= joined_rows(g.take(r as int)),
        decreases n - r,
    {
        if r > 0 {
            push_char(&mut s, '\n');
        }
        let m = canvas[r].len();
        let mut c: usize = 0;
        while c < m
            invariant
                n == canvas@.len(),
                g == canvas.deep_view(),
                0 <= r < n,
                m == canvas@[r as int]@.len(),
                0 <= c <= m,
                s@ =~= joined_rows(g.take(r as int))
                    + (if r > 0 { seq!['\n'] } else { Seq::<char>::empty() })
                    + g[r as int].take(c as int),
            decreases m - c,
        {
            push_char(&mut s, canvas[r][c]);
            proof {
                assert(g[r as int].take(c + 1) =~= g[r as int].take(c as int).push(g[r as int][c as int]));
            }
            c += 1;
        }
        proof {
            assert(g[r as int].take(m as int) =~= g[r as int]);
            assert(g.take(r + 1).drop_last() =~= g.take(r as int));
            assert(g.take(r + 1).last() == g[r as int]);
            if r == 0 {
                assert(joined_rows(g.take(1)) == g.take(1)[0]);
            }
        }
        r += 1;
    }
    proof {
        assert(g.take(n as int) =~= g);
    }
    s
}

/// Paint every entity's box onto the canvas, in order, and serialize the
/// result; later boxes overpaint earlier ones where they overlap.
pub fn render(canvas: Vec<Vec<char>>, entities: &Vec<Entity>) -> (r: (Vec<Vec<char>>, String))
    requires
        forall|i: int| 0 <= i < entities@.len() ==> entity_fits(#[trigger] entities@[i]),
    ensures
        boxes_painted(canvas.deep_view(), r.0.deep_view(), entities@),
        r.1@ == joined_rows(r.0.deep_view()),
{
    let ghost a = canvas.deep_view();
    let mut canvas = canvas;
    let n = entities.len();
    let mut i: usize = 0;
    proof {
        assert(entities@.take(0) =~= Seq::<Entity>::empty());
    }
    while i < n
        invariant
            n == entities@.len(),
            forall|k: int| 0 <= k < entities@.len() ==> entity_fits(#[trigger] entities@[k]),
            0 <= i <= n,
            boxes_painted(a, canvas.deep_view(), entities@.take(i as int)),
        decreases n - i,
    {
        let ghost b = canvas.deep_view();
        draw_entity(&mut canvas, &entities[i]);
        proof {
            lemma_boxes_painted_step(a, b, canvas.deep_view(), entities@.take(i as int), entities@[i as int]);
            assert(entities@.take(i + 1) =~= entities@.take(i as int).push(entities@[i as int]));
        }
        i += 1;
    }
    proof {
        assert(entities@.take(n as int) =~= entities@);
    }
    let text = canvas_text(&canvas);
    (canvas, text)
}

/// Painting one more entity on an already painted grid extends the paint
/// relation by that entity.
proof fn lemma_boxes_painted_step(
    a: Seq<Seq<char>>,
    b: Seq<Seq<char>>,
    c: Seq<Seq<char>>,
    es: Seq<Entity>,
    e: Entity,
)
    requires
        boxes_painted(a, b, es),
        same_dims(b, c),
        forall|r: int, col: int| 0 <= r < b.len() && 0 <= col < b[r].len()
            ==> #[trigger] c[r][col] == match entity_cell(e, col, r) {
                Some(g) => g,
                None => b[r][col],
            },
    ensures
        boxes_painted(a, c, es.push(e)),
{
    assert forall|r: int, col: int| 0 <= r < a.len() && 0 <= col < a[r].len()
        implies #[trigger] c[r][col] == match covered_char(es.push(e), col, r) {
            Some(g) => g,
            None => a[r][col],
        } by {
        assert(es.push(e).last() == e);
        assert(es.push(e).drop_last() =~= es);
    }
}


/// A cell strictly inside entity `e`'s box: between the borders.
pub open spec fn inside_entity_interior(e: Entity, x: int, y: int) -> bool {
    &&& e.x < x < e.x + ENTITY_WIDTH - 1
    &&& e.y < y < e.y + e.attributes@.len() + 3
}

/// A cell strictly inside some entity's box.  Border cells do not count:
/// connector lines may touch borders, never content.
pub open spec fn inside_content(es: Seq<Entity>, x: int, y: int) -> bool {
    exists|i: int| 0 <= i < es.len() && inside_entity_interior(#[trigger] es[i], x, y)
}

/// Whether the cell at `(x, y)` lies strictly inside some entity's box.
pub fn is_inside_entity_content(x: usize, y: usize, entities: &Vec<Entity>) -> (r: bool)
    requires
        forall|i: int| 0 <= i < entities@.len() ==> entity_fits(#[trigger] entities@[i]),
    ensures
        r == inside_content(entities@, x as int, y as int),
{
    let n = entities.len();
    let mut i: usize = 0;
    while i < n
        invariant
            n == entities@.len(),
            forall|k: int| 0 <= k < entities@.len() ==> entity_fits(#[trigger] entities@[k]),
            0 <= i <= n,
            forall|k: int| 0 <= k < i
                ==> !inside_entity_interior(#[trigger] entities@[k], x as int, y as int),
        decreases n - i,
    {
        let e = &entities[i];
        if x > e.x && x < e.x + ENTITY_WIDTH - 1 && y > e.y && y < e.y + e.attributes.len() + 3 {
            return true;
        }
        i += 1;
    }
    false
}

/// Corner glyph joining a horizontal approach and a vertical departure:
/// chosen by whether the line came travelling rightwards and leaves
/// travelling downwards.
pub open spec fn corner_glyph(rightward: bool, downward: bool) -> char {
    if rightward && downward {
        '\u{2510}'
    } else if rightward {
        '\u{2518}'
    } else if downward {
        '\u{250c}'
    } else {
        '\u{2514}'
    }
}

/// Arrowhead at a tip for a line whose previous cell lay `dx` to the
/// right and `dy` below the tip: points away from the approach, into the
/// referenced entity.
pub open spec fn arrow_glyph(dx: int, dy: int) -> char {
    if abs_of(dx) > abs_of(dy) {
        if dx > 0 { '\u{25c4}' } else { '\u{25ba}' }
    } else {
        if dy > 0 { '\u{25b2}' } else { '\u{25bc}' }
    }
}

/// Absolute value.
pub open spec fn abs_of(v: int) -> int {
    if v >= 0 { v } else { -v }
}

/// The glyphs a connector may put on the canvas.
pub open spec fn is_route_glyph(ch: char) -> bool {
    ||| ch == '\u{2500}'
    ||| ch == '\u{2502}'
    ||| ch == '\u{250c}'
    ||| ch == '\u{2510}'
    ||| ch == '\u{2514}'
    ||| ch == '\u{2518}'
    ||| ch == '\u{251c}'
    ||| ch == '\u{2524}'
    ||| ch == '\u{25c4}'
    ||| ch == '\u{25ba}'
    ||| ch == '\u{25b2}'
    ||| ch == '\u{25bc}'
}

/// What a cell holding `old` comes to hold once the L-shaped route from
/// `(fx, fy)` to `(tx, ty)` is drawn: a horizontal run along row `fy`, a
/// vertical run along column `tx`, and one corner where the two meet --
/// written only onto blank cells outside every entity's content area.
/// The route is cell-local: what a cell becomes depends only on what it
/// held.
pub open spec fn route_cell_value(
    old: char,
    es: Seq<Entity>,
    fx: int,
    fy: int,
    tx: int,
    ty: int,
    c: int,
    r: int,
) -> char {
    let lo_x = if fx <= tx { fx } else { tx };
    let hi_x = if fx <= tx { tx } else { fx };
    let lo_y = if fy <= ty { fy } else { ty };
    let hi_y = if fy <= ty { ty } else { fy };
    if r == fy && c == tx && fx != tx && fy != ty && !inside_content(es, c, r) {
        corner_glyph(fx < tx, fy < ty)
    } else if r == fy && lo_x < c < hi_x && !inside_content(es, c, r) && old == ' ' {
        '\u{2500}'
    } else if c == tx && lo_y < r < hi_y && !inside_content(es, c, r) && old == ' ' {
        '\u{2502}'
    } else {
        old
    }
}

/// `route_cell_value` read off grid `a`.
pub open spec fn route_cell(
    a: Seq<Seq<char>>,
    es: Seq<Entity>,
    fx: int,
    fy: int,
    tx: int,
    ty: int,
    c: int,
    r: int,
) -> char {
    route_cell_value(a[r][c], es, fx, fy, tx, ty, c, r)
}

/// A straight connector stays straight: when source and target share a
/// row, the route writes horizontal fill glyphs only -- no corner, no
/// vertical glyph -- and the matching statement holds of a shared column.
pub proof fn lemma_straight_route_no_corner(
    a: Seq<Seq<char>>,
    es: Seq<Entity>,
    fx: int,
    fy: int,
    tx: int,
    ty: int,
)
    ensures
        fy == ty ==> forall|c: int, r: int| #![auto]
            route_cell(a, es, fx, fy, tx, ty, c, r) == a[r][c]
                || route_cell(a, es, fx, fy, tx, ty, c, r) == '\u{2500}',
        fx == tx ==> forall|c: int, r: int| #![auto]
            route_cell(a, es, fx, fy, tx, ty, c, r) == a[r][c]
                || route_cell(a, es, fx, fy, tx, ty, c, r) == '\u{2502}',
{
}

/// An orthogonal connector gets exactly the corner glyph of its
/// direction pair: a route that crosses both axes puts, at the cell
/// where its two segments meet, the corner chosen by whether it travels
/// rightwards and downwards.
pub proof fn lemma_corner_matches_directions(
    a: Seq<Seq<char>>,
    es: Seq<Entity>,
    fx: int,
    fy: int,
    tx: int,
    ty: int,
)
    requires
        fx != tx,
        fy != ty,
        !inside_content(es, tx, fy),
    ensures
        route_cell(a, es, fx, fy, tx, ty, tx, fy) == corner_glyph(fx < tx, fy < ty),
{
}

/// A route never writes into any entity's content area.
pub proof fn lemma_route_avoids_interiors(
    a: Seq<Seq<char>>,
    es: Seq<Entity>,
    fx: int,
    fy: int,
    tx: int,
    ty: int,
)
    ensures
        forall|c: int, r: int| #![auto] inside_content(es, c, r)
            ==> route_cell(a, es, fx, fy, tx, ty, c, r) == a[r][c],
{
}

/// Draw the L-shaped route: a horizontal segment along the source row, a
/// vertical segment along the target column, and the corner where they
/// meet.  Only blank cells outside every entity's content area are
/// written; everything else, the canvas dimensions included, stays as it
/// was.
pub fn draw_simple_fk(
    from_x: usize,
    from_y: usize,
    to_x: usize,
    to_y: usize,
    canvas: &mut Vec<Vec<char>>,
    entities: &Vec<Entity>,
)
    requires
        forall|i: int| 0 <= i < entities@.len() ==> entity_fits(#[trigger] entities@[i]),
        from_x <= 3 * COORD_MAX,
        from_y <= 3 * COORD_MAX,
        to_x <= 3 * COORD_MAX,
        to_y <= 3 * COORD_MAX,
    ensures
        same_dims(old(canvas).deep_view(), final(canvas).deep_view()),
        forall|r: int, c: int|
            0 <= r < old(canvas).deep_view().len() && 0 <= c < old(canvas).deep_view()[r].len()
            ==> #[trigger] final(canvas).deep_view()[r][c] == route_cell(
                old(canvas).deep_view(),
                entities@,
                from_x as int,
                from_y as int,
                to_x as int,
                to_y as int,
                c,
                r,
            ),
{
    let ghost a = canvas.deep_view();
    let ghost es = entities@;
    let ghost fx = from_x as int;
    let ghost fy = from_y as int;
    let ghost tx = to_x as int;
    let ghost ty = to_y as int;

    let start_x = if from_x <= to_x { from_x } else { to_x };
    let end_x = if from_x <= to_x { to_x } else { from_x };
    let start_y = if from_y <= to_y { from_y } else { to_y };
    let end_y = if from_y <= to_y { to_y } else { from_y };

    // Horizontal segment along the source row, endpoints excluded.
    let mut x = start_x + 1;
    while x < end_x
        invariant
            forall|i: int| 0 <= i < es.len() ==> entity_fits(#[trigger] es[i]),
            es == entities@,
            fx == from_x as int,
            fy == from_y as int,
            tx == to_x as int,
            ty == to_y as int,
            start_x == (if fx <= tx { fx } else { tx }),
            end_x == (if fx <= tx { tx } else { fx }),
            start_x + 1 <= x <= end_x || (start_x + 1 > end_x && x == start_x + 1),
            same_dims(a, canvas.deep_view()),
            forall|r: int, c: int| 0 <= r < a.len() && 0 <= c < a[r].len()
                ==> #[trigger] canvas.deep_view()[r][c] == (
                    if r == fy && start_x < c < x && !inside_content(es, c, r) && a[r][c] == ' ' {
                        '\u{2500}'
                    } else {
                        a[r][c]
                    }),
        decreases end_x - x,
    {
        let free = !is_inside_entity_content(x, from_y, entities);
        let blank = match crate::canvas::read_cell(canvas, x, from_y) {
            Some(ch) => ch == ' ',
            None => false,
        };
        let ghost pre = canvas.deep_view();
        if free && blank {
            put_cell(canvas, x, from_y, '\u{2500}');
        }
        proof {
            let g = canvas.deep_view();
            assert forall|r: int, c: int| 0 <= r < a.len() && 0 <= c < a[r].len()
                implies #[trigger] g[r][c] == (
                    if r == fy && start_x < c < x + 1 && !inside_content(es, c, r) && a[r][c] == ' ' {
                        '\u{2500}'
                    } else {
                        a[r][c]
                    }) by {
                assert(pre[r][c] == (
                    if r == fy && start_x < c < x && !inside_content(es, c, r) && a[r][c] == ' ' {
                        '\u{2500}'
                    } else {
                        a[r][c]
                    }));
                if free && blank {
                    assert(g == put_spec(pre, x as int, fy, '\u{2500}'));
                    if r == fy && c == x as int {
                        assert(g[r][c] == '\u{2500}');
                        assert(pre[r][c] == a[r][c]);
                    } else {
                        assert(g[r][c] == pre[r][c]);
                    }
                } else {
                    assert(g == pre);
                    if r == fy && c == x as int {
                        assert(pre[r][c] == a[r][c]);
                        assert(inside_content(es, c, r) || a[r][c] != ' ');
                    }
                }
            }
        }
        x += 1;
    }

    // Vertical segment along the target column, endpoints excluded.
    let mut y = start_y + 1;
    while y < end_y
        invariant
            forall|i: int| 0 <= i < es.len() ==> entity_fits(#[trigger] es[i]),
            es == entities@,
            fx == from_x as int,
            fy == from_y as int,
            tx == to_x as int,
            ty == to_y as int,
            start_x == (if fx <= tx { fx } else { tx }),
            end_x == (if fx <= tx { tx } else { fx }),
            start_y == (if fy <= ty { fy } else { ty }),
            end_y == (if fy <= ty { ty } else { fy }),
            start_y + 1 <= y <= end_y || (start_y + 1 > end_y && y == start_y + 1),
            same_dims(a, canvas.deep_view()),
            forall|r: int, c: int| 0 <= r < a.len() && 0 <= c < a[r].len()
                ==> #[trigger] canvas.deep_view()[r][c] == (
                    if r == fy && start_x < c < end_x && !inside_content(es, c, r) && a[r][c] == ' ' {
                        '\u{2500}'
                    } else if c == tx && start_y < r < y && !inside_content(es, c, r) && a[r][c] == ' ' {
                        '\u{2502}'
                    } else {
                        a[r][c]
                    }),
        decreases end_y - y,
    {
        let free = !is_inside_entity_content(to_x, y, entities);
        let blank = match crate::canvas::read_cell(canvas, to_x, y) {
            Some(ch) => ch == ' ',
            None => false,
        };
        let ghost pre = canvas.deep_view();
        if free && blank {
            put_cell(canvas, to_x, y, '\u{2502}');
        }
        proof {
            let g = canvas.deep_view();
            assert forall|r: int, c: int| 0 <= r < a.len() && 0 <= c < a[r].len()
                implies #[trigger] g[r][c] == (
                    if r == fy && start_x < c < end_x && !inside_content(es, c, r) && a[r][c] == ' ' {
                        '\u{2500}'
                    } else if c == tx && start_y < r < y + 1 && !inside_content(es, c, r) && a[r][c] == ' ' {
                        '\u{2502}'
                    } else {
                        a[r][c]
                    }) by {
                assert(pre[r][c] == (
                    if r == fy && start_x < c < end_x && !inside_content(es, c, r) && a[r][c] == ' ' {
                        '\u{2500}'
                    } else if c == tx && start_y < r < y && !inside_content(es, c, r) && a[r][c] == ' ' {
                        '\u{2502}'
                    } else {
                        a[r][c]
                    }));
                if free && blank {
                    assert(g == put_spec(pre, tx, y as int, '\u{2502}'));
                    if r == y as int && c == tx {
                        assert(g[r][c] == '\u{2502}');
                        assert(r != fy);
                        assert(pre[r][c] == a[r][c]);
                    } else {
                        assert(g[r][c] == pre[r][c]);
                    }
                } else {
                    assert(g == pre);
                    if r == y as int && c == tx {
                        assert(r != fy);
                        assert(pre[r][c] == a[r][c]);
                        assert(inside_content(es, c, r) || a[r][c] != ' ');
                    }
                }
            }
        }
        y += 1;
    }

    // Corner where the two segments meet.
    if from_x != to_x && from_y != to_y {
        let free = !is_inside_entity_content(to_x, from_y, entities);
        if free {
            let corner = if from_x < to_x {
                if from_y < to_y { '\u{2510}' } else { '\u{2518}' }
            } else {
                if from_y < to_y { '\u{250c}' } else { '\u{2514}' }
            };
            put_cell(canvas, to_x, from_y, corner);
        }
    }

    proof {
        assert forall|r: int, c: int| 0 <= r < a.len() && 0 <= c < a[r].len()
            implies #[trigger] canvas.deep_view()[r][c] == route_cell(a, es, fx, fy, tx, ty, c, r) by {
        }
    }
}


/// Index of the first entity named `name`, or `None`.
pub open spec fn entity_named(es: Seq<Entity>, name: Seq<char>) -> Option<int>
    decreases es.len(),
{
    if es.len() == 0 {
        None
    } else if es[0].name@ == name {
        Some(0int)
    } else {
        match entity_named(es.drop_first(), name) {
            Some(i) => Some(i + 1),
            None => None,
        }
    }
}

/// Index of the first attribute named `name`, or `None`.
pub open spec fn attribute_named(attrs: Seq<Attribute>, name: Seq<char>) -> Option<int>
    decreases attrs.len(),
{
    if attrs.len() == 0 {
        None
    } else if attrs[0].name@ == name {
        Some(0int)
    } else {
        match attribute_named(attrs.drop_first(), name) {
            Some(i) => Some(i + 1),
            None => None,
        }
    }
}

/// What `entity_named` finds: an index in range bearing the name, after
/// a prefix that does not.
proof fn lemma_entity_named_props(es: Seq<Entity>, name: Seq<char>)
    ensures
        match entity_named(es, name) {
            Some(i) => 0 <= i < es.len() && es[i].name@ == name
                && (forall|k: int| #![auto] 0 <= k < i ==> es[k].name@ != name),
            None => forall|k: int| #![auto] 0 <= k < es.len() ==> es[k].name@ != name,
        },
    decreases es.len(),
{
    if es.len() > 0 && es[0].name@ != name {
        lemma_entity_named_props(es.drop_first(), name);
        assert forall|k: int| 1 <= k < es.len() implies es[k] == es.drop_first()[k - 1] by {}
    }
}

/// What `attribute_named` finds.
proof fn lemma_attribute_named_props(attrs: Seq<Attribute>, name: Seq<char>)
    ensures
        match attribute_named(attrs, name) {
            Some(i) => 0 <= i < attrs.len() && attrs[i].name@ == name
                && (forall|k: int| #![auto] 0 <= k < i ==> attrs[k].name@ != name),
            None => forall|k: int| #![auto] 0 <= k < attrs.len() ==> attrs[k].name@ != name,
        },
    decreases attrs.len(),
{
    if attrs.len() > 0 && attrs[0].name@ != name {
        lemma_attribute_named_props(attrs.drop_first(), name);
        assert forall|k: int| 1 <= k < attrs.len() implies attrs[k] == attrs.drop_first()[k - 1] by {}
    }
}

/// A nameless prefix and a hit pin `entity_named` down.
proof fn lemma_entity_named_prefix(es: Seq<Entity>, name: Seq<char>, i: int)
    requires
        0 <= i < es.len(),
        es[i].name@ == name,
        forall|k: int| #![auto] 0 <= k < i ==> es[k].name@ != name,
    ensures
        entity_named(es, name) == Some(i),
    decreases i,
{
    if i > 0 {
        assert(es.drop_first()[i - 1] == es[i]);
        assert forall|k: int| #![auto] 0 <= k < i - 1 implies es.drop_first()[k].name@ != name by {
            assert(es.drop_first()[k] == es[k + 1]);
        }
        lemma_entity_named_prefix(es.drop_first(), name, i - 1);
    }
}

/// A nameless prefix and a hit pin `attribute_named` down.
proof fn lemma_attribute_named_prefix(attrs: Seq<Attribute>, name: Seq<char>, i: int)
    requires
        0 <= i < attrs.len(),
        attrs[i].name@ == name,
        forall|k: int| #![auto] 0 <= k < i ==> attrs[k].name@ != name,
    ensures
        attribute_named(attrs, name) == Some(i),
    decreases i,
{
    if i > 0 {
        assert(attrs.drop_first()[i - 1] == attrs[i]);
        assert forall|k: int| #![auto] 0 <= k < i - 1 implies attrs.drop_first()[k].name@ != name by {
            assert(attrs.drop_first()[k] == attrs[k + 1]);
        }
        lemma_attribute_named_prefix(attrs.drop_first(), name, i - 1);
    }
}

/// The target of the connector of attribute `j` of entity `i`: the first
/// entity of the referenced table's name and, within it, the first
/// attribute of the referenced column's name; `None` when the attribute
/// references nothing or the reference dangles.
pub open spec fn edge_target(es: Seq<Entity>, i: int, j: int) -> Option<(int, int)> {
    match crate::engine::pair_view(es[i].attributes@[j].reffering_to) {
        Some(pair) => match entity_named(es, pair.0) {
            Some(t) => match attribute_named(es[t].attributes@, pair.1) {
                Some(k) => Some((t, k)),
                None => None,
            },
            None => None,
        },
        None => None,
    }
}

/// The exit and entry points of the connector of attribute `j` of `e`
/// referencing attribute `k` of `t`, as `connection_points` computes
/// them.
pub open spec fn edge_points(e: Entity, j: int, t: Entity, k: int) -> ((int, int), (int, int)) {
    if t.x > e.x {
        ((e.x + ENTITY_WIDTH, e.y + 3 + j), (t.x - 1, t.y + 3 + k))
    } else if t.x < e.x {
        ((e.x - 1, e.y + 3 + j), (t.x + ENTITY_WIDTH, t.y + 3 + k))
    } else {
        (
            (e.x + ENTITY_WIDTH / 2, e.y + e.attributes@.len() + 4),
            (t.x + ENTITY_WIDTH / 2, if t.y > 0 { t.y - 1int } else { 0int }),
        )
    }
}

/// What a cell holding `old` comes to hold once the connector of
/// attribute `j` of entity `i` is drawn: nothing for an unresolvable
/// edge; otherwise the port glyph on the exit border, then the L-shaped
/// route, then the arrowhead at the entry point -- all kept out of every
/// entity's content area.
pub open spec fn edge_cell_value(old: char, es: Seq<Entity>, i: int, j: int, c: int, r: int) -> char {
    match edge_target(es, i, j) {
        None => old,
        Some((t, k)) => {
            let e = es[i];
            let tt = es[t];
            let p = edge_points(e, j, tt, k);
            let after_port = if tt.x > e.x && r == e.y + 3 + j && c == e.x + ENTITY_WIDTH - 1
                && !inside_content(es, c, r) {
                '\u{251c}'
            } else if tt.x < e.x && r == e.y + 3 + j && c == e.x && !inside_content(es, c, r) {
                '\u{2524}'
            } else {
                old
            };
            let after_route = route_cell_value(after_port, es, p.0.0, p.0.1, p.1.0, p.1.1, c, r);
            if r == p.1.1 && c == p.1.0 && !inside_content(es, c, r) {
                arrow_glyph(p.0.0 - p.1.0, p.0.1 - p.1.1)
            } else {
                after_route
            }
        }
    }
}

/// Grid `g` with the connector of attribute `j` of entity `i` drawn.
pub open spec fn edge_grid(g: Seq<Seq<char>>, es: Seq<Entity>, i: int, j: int) -> Seq<Seq<char>> {
    Seq::new(g.len(), |r: int| Seq::new(g[r].len(), |c: int| edge_cell_value(g[r][c], es, i, j, c, r)))
}

/// Grid `g` with the connectors of the first `j` attributes of entity
/// `i` drawn, in order.
pub open spec fn edges_of_entity(g: Seq<Seq<char>>, es: Seq<Entity>, i: int, j: int) -> Seq<Seq<char>>
    decreases j,
{
    if j <= 0 {
        g
    } else {
        edge_grid(edges_of_entity(g, es, i, j - 1), es, i, j - 1)
    }
}

/// Grid `g` with the connectors of the first `i` entities drawn, entity
/// by entity, attribute by attribute.
pub open spec fn edges_drawn(g: Seq<Seq<char>>, es: Seq<Entity>, i: int) -> Seq<Seq<char>>
    decreases i,
{
    if i <= 0 {
        g
    } else {
        edges_of_entity(edges_drawn(g, es, i - 1), es, i - 1, es[i - 1].attributes@.len() as int)
    }
}

/// Grid `b` is grid `a` with connector glyphs overlaid: dimensions kept,
/// every entity's content area untouched, and every changed cell holding
/// a route glyph.
pub open spec fn route_overlay(a: Seq<Seq<char>>, b: Seq<Seq<char>>, es: Seq<Entity>) -> bool {
    &&& same_dims(a, b)
    &&& forall|r: int, c: int| 0 <= r < a.len() && 0 <= c < a[r].len() && inside_content(es, c, r)
        ==> #[trigger] b[r][c] == a[r][c]
    &&& forall|r: int, c: int| 0 <= r < a.len() && 0 <= c < a[r].len() && b[r][c] != a[r][c]
        ==> is_route_glyph(#[trigger] b[r][c])
}

/// Route overlays compose.
proof fn lemma_route_overlay_trans(a: Seq<Seq<char>>, b: Seq<Seq<char>>, c: Seq<Seq<char>>, es: Seq<Entity>)
    requires
        route_overlay(a, b, es),
        route_overlay(b, c, es),
    ensures
        route_overlay(a, c, es),
{
    assert forall|r: int, col: int|
        0 <= r < a.len() && 0 <= col < a[r].len() && c[r][col] != a[r][col]
        implies is_route_glyph(#[trigger] c[r][col]) by {
        if c[r][col] != b[r][col] {
        } else {
            assert(b[r][col] != a[r][col]);
        }
    }
}

/// The L-shaped route is a route overlay.
proof fn lemma_simple_fk_overlay(
    a: Seq<Seq<char>>,
    b: Seq<Seq<char>>,
    es: Seq<Entity>,
    fx: int,
    fy: int,
    tx: int,
    ty: int,
)
    requires
        same_dims(a, b),
        forall|r: int, c: int| 0 <= r < a.len() && 0 <= c < a[r].len()
            ==> #[trigger] b[r][c] == route_cell(a, es, fx, fy, tx, ty, c, r),
    ensures
        route_overlay(a, b, es),
{
    assert forall|r: int, c: int|
        0 <= r < a.len() && 0 <= c < a[r].len() && b[r][c] != a[r][c]
        implies is_route_glyph(#[trigger] b[r][c]) by {
        assert(b[r][c] == route_cell(a, es, fx, fy, tx, ty, c, r));
    }
}

/// Write one route glyph at `(x, y)`, unless the cell lies inside some
/// entity's content area or outside the canvas.
fn put_route_glyph(canvas: &mut Vec<Vec<char>>, x: usize, y: usize, ch: char, entities: &Vec<Entity>)
    requires
        forall|i: int| 0 <= i < entities@.len() ==> entity_fits(#[trigger] entities@[i]),
        is_route_glyph(ch),
    ensures
        same_dims(old(canvas).deep_view(), final(canvas).deep_view()),
        forall|r: int, c: int|
            0 <= r < old(canvas).deep_view().len() && 0 <= c < old(canvas).deep_view()[r].len()
            ==> #[trigger] final(canvas).deep_view()[r][c] == (
                if r == y && c == x && !inside_content(entities@, c, r) {
                    ch
                } else {
                    old(canvas).deep_view()[r][c]
                }),
        route_overlay(old(canvas).deep_view(), final(canvas).deep_view(), entities@),
{
    if !is_inside_entity_content(x, y, entities) {
        put_cell(canvas, x, y, ch);
    }
}

/// Exit and entry points of the connector for attribute `j` of `e`
/// referencing attribute `k` of `t`: the route leaves `e` on the side
/// facing `t`, at the attribute's own row, and arrives just outside `t`'s
/// border at the referenced attribute's row.  Entities in the same slot
/// column -- a table referencing itself included -- connect from below
/// the source box to above the target box, and the two points are never
/// the same cell.
pub fn connection_points(e: &Entity, j: usize, t: &Entity, k: usize) -> (p: ((usize, usize), (usize, usize)))
    requires
        entity_fits(*e),
        entity_fits(*t),
        j < e.attributes@.len(),
        k < t.attributes@.len(),
    ensures
        t.x > e.x ==> p.0.0 == e.x + ENTITY_WIDTH && p.0.1 == e.y + 3 + j
            && p.1.0 == t.x - 1 && p.1.1 == t.y + 3 + k,
        t.x < e.x ==> p.0.0 == e.x - 1 && p.0.1 == e.y + 3 + j
            && p.1.0 == t.x + ENTITY_WIDTH && p.1.1 == t.y + 3 + k,
        t.x == e.x ==> p.0.0 == e.x + ENTITY_WIDTH / 2
            && p.0.1 == e.y + e.attributes@.len() + 4
            && p.1.0 == t.x + ENTITY_WIDTH / 2
            && p.1.1 == (if t.y > 0 { t.y - 1 } else { 0int }),
        e.x == t.x && e.y == t.y ==> p.0 != p.1,
        p.0.0 == edge_points(*e, j as int, *t, k as int).0.0,
        p.0.1 == edge_points(*e, j as int, *t, k as int).0.1,
        p.1.0 == edge_points(*e, j as int, *t, k as int).1.0,
        p.1.1 == edge_points(*e, j as int, *t, k as int).1.1,
        p.0.0 <= 3 * COORD_MAX && p.0.1 <= 3 * COORD_MAX,
        p.1.0 <= 3 * COORD_MAX && p.1.1 <= 3 * COORD_MAX,
{
    if t.x > e.x {
        ((e.x + ENTITY_WIDTH, e.y + 3 + j), (t.x - 1, t.y + 3 + k))
    } else if t.x < e.x {
        ((e.x - 1, e.y + 3 + j), (t.x + ENTITY_WIDTH, t.y + 3 + k))
    } else {
        let from = (e.x + ENTITY_WIDTH / 2, e.y + e.attributes.len() + 4);
        let to = (t.x + ENTITY_WIDTH / 2, if t.y > 0 { t.y - 1 } else { 0 });
        (from, to)
    }
}

/// Draw the arrowhead at the target point, oriented opposite the
/// approach direction; content areas and out-of-canvas cells are left
/// alone.
fn draw_arrow_head(
    canvas: &mut Vec<Vec<char>>,
    tip_x: usize,
    tip_y: usize,
    from_x: usize,
    from_y: usize,
    entities: &Vec<Entity>,
)
    requires
        forall|i: int| 0 <= i < entities@.len() ==> entity_fits(#[trigger] entities@[i]),
    ensures
        same_dims(old(canvas).deep_view(), final(canvas).deep_view()),
        forall|r: int, c: int|
            0 <= r < old(canvas).deep_view().len() && 0 <= c < old(canvas).deep_view()[r].len()
            ==> #[trigger] final(canvas).deep_view()[r][c] == (
                if r == tip_y && c == tip_x && !inside_content(entities@, c, r) {
                    arrow_glyph(from_x - tip_x, from_y - tip_y)
                } else {
                    old(canvas).deep_view()[r][c]
                }),
        route_overlay(old(canvas).deep_view(), final(canvas).deep_view(), entities@),
{
    let adx = if from_x >= tip_x { from_x - tip_x } else { tip_x - from_x };
    let ady = if from_y >= tip_y { from_y - tip_y } else { tip_y - from_y };
    let arrow = if adx > ady {
        if from_x > tip_x { '\u{25c4}' } else { '\u{25ba}' }
    } else {
        if from_y > tip_y { '\u{25b2}' } else { '\u{25bc}' }
    };
    put_route_glyph(canvas, tip_x, tip_y, arrow, entities);
}

/// Find the index of the first entity named `name`.
fn find_entity(entities: &Vec<Entity>, name: &String) -> (r: Option<usize>)
    ensures
        match entity_named(entities@, name@) {
            Some(i) => r matches Some(u) && u == i,
            None => r is None,
        },
{
    let n = entities.len();
    let mut i: usize = 0;
    while i < n
        invariant
            n == entities@.len(),
            0 <= i <= n,
            forall|k: int| #![auto] 0 <= k < i ==> entities@[k].name@ != name@,
        decreases n - i,
    {
        if entities[i].name == *name {
            proof {
                lemma_entity_named_prefix(entities@, name@, i as int);
            }
            return Some(i);
        }
        i += 1;
    }
    proof {
        lemma_entity_named_props(entities@, name@);
    }
    None
}

/// Find the index of the first attribute of `e` named `name`.
fn find_attribute(e: &Entity, name: &String) -> (r: Option<usize>)
    ensures
        match attribute_named(e.attributes@, name@) {
            Some(j) => r matches Some(u) && u == j,
            None => r is None,
        },
{
    let n = e.attributes.len();
    let mut j: usize = 0;
    while j < n
        invariant
            n == e.attributes@.len(),
            0 <= j <= n,
            forall|k: int| #![auto] 0 <= k < j ==> e.attributes@[k].name@ != name@,
        decreases n - j,
    {
        if e.attributes[j].name == *name {
            proof {
                lemma_attribute_named_prefix(e.attributes@, name@, j as int);
            }
            return Some(j);
        }
        j += 1;
    }
    proof {
        lemma_attribute_named_props(e.attributes@, name@);
    }
    None
}

/// A table referencing itself still gets a drawn, non-degenerate loop:
/// the two connector endpoints differ, and whenever the entry point
/// lies outside every content area, the connector pass leaves the
/// arrowhead there -- so the edge is visible on the canvas.
pub proof fn lemma_self_loop_arrow(old_c: char, es: Seq<Entity>, i: int, j: int)
    requires
        0 <= i < es.len(),
        0 <= j < es[i].attributes@.len(),
        edge_target(es, i, j) is Some,
        edge_target(es, i, j)->Some_0.0 == i,
    ensures
        ({
            let k = edge_target(es, i, j)->Some_0.1;
            let p = edge_points(es[i], j, es[i], k);
            &&& p.0 != p.1
            &&& !inside_content(es, p.1.0, p.1.1) ==> edge_cell_value(old_c, es, i, j, p.1.0, p.1.1)
                == arrow_glyph(p.0.0 - p.1.0, p.0.1 - p.1.1)
            &&& is_route_glyph(arrow_glyph(p.0.0 - p.1.0, p.0.1 - p.1.1))
        }),
{
}

/// A straight connector stays straight end to end: when an edge's two
/// column rows coincide (side-by-side tables) the whole cell
/// transformation -- port, route and arrowhead together -- writes only
/// horizontal fill, port and arrowhead glyphs; and when the two tables
/// sit in the same slot column, only vertical fill and arrowhead
/// glyphs.  No corner glyph appears in either case.
pub proof fn lemma_straight_edge_no_corner(old_c: char, es: Seq<Entity>, i: int, j: int, c: int, r: int)
    requires
        0 <= i < es.len(),
        0 <= j < es[i].attributes@.len(),
        edge_target(es, i, j) is Some,
    ensures
        ({
            let (t, k) = edge_target(es, i, j)->Some_0;
            let v = edge_cell_value(old_c, es, i, j, c, r);
            &&& (es[t].x != es[i].x && es[i].y + 3 + j == es[t].y + 3 + k ==> v == old_c
                || v == '\u{2500}' || v == '\u{251c}' || v == '\u{2524}' || v == '\u{25c4}'
                || v == '\u{25ba}' || v == '\u{25b2}' || v == '\u{25bc}')
            &&& (es[t].x == es[i].x ==> v == old_c || v == '\u{2502}' || v == '\u{25b2}'
                || v == '\u{25bc}')
        }),
{
}

/// Draw the connector of attribute `j` of entity `i`: the port glyph on
/// the exit border, the L-shaped route towards the referenced
/// attribute's row, and the arrowhead at the referenced end.  An edge
/// whose target table or column does not exist draws nothing.  The cell
/// transformation is exactly `edge_cell_value`, so in particular no
/// entity's content area is touched.
pub fn draw_relationship(canvas: &mut Vec<Vec<char>>, entities: &Vec<Entity>, i: usize, j: usize)
    requires
        forall|q: int| 0 <= q < entities@.len() ==> entity_fits(#[trigger] entities@[q]),
        i < entities@.len(),
        j < entities@[i as int].attributes@.len(),
    ensures
        same_dims(old(canvas).deep_view(), final(canvas).deep_view()),
        forall|r: int, c: int|
            0 <= r < old(canvas).deep_view().len() && 0 <= c < old(canvas).deep_view()[r].len()
            ==> #[trigger] final(canvas).deep_view()[r][c] == edge_cell_value(
                old(canvas).deep_view()[r][c],
                entities@,
                i as int,
                j as int,
                c,
                r,
            ),
        route_overlay(old(canvas).deep_view(), final(canvas).deep_view(), entities@),
{
    let ghost a = canvas.deep_view();
    let ghost es = entities@;

    let target = match &entities[i].attributes[j].reffering_to {
        Some(pair) => {
            let t_name = pair.0.clone();
            let c_name = pair.1.clone();
            proof {
                lemma_entity_named_props(es, t_name@);
            }
            match find_entity(entities, &t_name) {
                Some(ti) => {
                    proof {
                        lemma_attribute_named_props(es[ti as int].attributes@, c_name@);
                    }
                    match find_attribute(&entities[ti], &c_name) {
                        Some(k) => Some((ti, k)),
                        None => None,
                    }
                }
                None => None,
            }
        }
        None => None,
    };
    match target {
        Some((ti, k)) => {
            proof {
                assert(edge_target(es, i as int, j as int) == Some((ti as int, k as int)));
            }
            let (from, to) = connection_points(&entities[i], j, &entities[ti], k);
            let ghost before_port = canvas.deep_view();
            if entities[ti].x > entities[i].x {
                put_route_glyph(
                    &mut *canvas,
                    entities[i].x + ENTITY_WIDTH - 1,
                    entities[i].y + 3 + j,
                    '\u{251c}',
                    entities,
                );
            } else if entities[ti].x < entities[i].x {
                put_route_glyph(
                    &mut *canvas,
                    entities[i].x,
                    entities[i].y + 3 + j,
                    '\u{2524}',
                    entities,
                );
            }
            let ghost after_port = canvas.deep_view();
            draw_simple_fk(from.0, from.1, to.0, to.1, &mut *canvas, entities);
            proof {
                lemma_simple_fk_overlay(
                    after_port,
                    canvas.deep_view(),
                    es,
                    from.0 as int,
                    from.1 as int,
                    to.0 as int,
                    to.1 as int,
                );
                lemma_route_overlay_trans(a, after_port, canvas.deep_view(), es);
            }
            let ghost after_route = canvas.deep_view();
            draw_arrow_head(&mut *canvas, to.0, to.1, from.0, from.1, entities);
            proof {
                lemma_route_overlay_trans(a, after_route, canvas.deep_view(), es);
                let e = es[i as int];
                let tt = es[ti as int];
                let p = edge_points(e, j as int, tt, k as int);
                assert forall|r: int, c: int| 0 <= r < a.len() && 0 <= c < a[r].len()
                    implies #[trigger] canvas.deep_view()[r][c] == edge_cell_value(
                        a[r][c],
                        es,
                        i as int,
                        j as int,
                        c,
                        r,
                    ) by {
                    assert(after_port[r][c] == (
                        if tt.x > e.x && r == e.y + 3 + j && c == e.x + ENTITY_WIDTH - 1
                            && !inside_content(es, c, r) {
                            '\u{251c}'
                        } else if tt.x < e.x && r == e.y + 3 + j && c == e.x
                            && !inside_content(es, c, r) {
                            '\u{2524}'
                        } else {
                            a[r][c]
                        }));
                    assert(after_route[r][c] == route_cell_value(
                        after_port[r][c],
                        es,
                        p.0.0,
                        p.0.1,
                        p.1.0,
                        p.1.1,
                        c,
                        r,
                    ));
                }
            }
        }
        None => {
            proof {
                assert(edge_target(es, i as int, j as int) is None);
            }
        }
    }
}

/// Draw every foreign-key connector: for each attribute that references
/// another table's attribute, route an orthogonal line from the source
/// row to the target row and finish it with an arrowhead, entity by
/// entity and attribute by attribute.  Edges whose target table or
/// column does not exist are skipped, never an error.  The result is
/// exactly the `edges_drawn` fold of the input grid; in particular no
/// cell inside any entity's content area changes, and every changed
/// cell receives a route glyph.
pub fn render_foreign_key(canvas: Vec<Vec<char>>, entities: &Vec<Entity>) -> (r: (Vec<Vec<char>>, String))
    requires
        forall|i: int| 0 <= i < entities@.len() ==> entity_fits(#[trigger] entities@[i]),
    ensures
        r.0.deep_view() == edges_drawn(canvas.deep_view(), entities@, entities@.len() as int),
        route_overlay(canvas.deep_view(), r.0.deep_view(), entities@),
        r.1@ == joined_rows(r.0.deep_view()),
{
    let ghost a = canvas.deep_view();
    let ghost es = entities@;
    let mut canvas = canvas;
    let n = entities.len();
    let mut i: usize = 0;
    while i < n
        invariant
            n == entities@.len(),
            es == entities@,
            forall|q: int| 0 <= q < es.len() ==> entity_fits(#[trigger] es[q]),
            0 <= i <= n,
            canvas.deep_view() == edges_drawn(a, es, i as int),
            route_overlay(a, canvas.deep_view(), es),
        decreases n - i,
    {
        let m = entities[i].attributes.len();
        let mut j: usize = 0;
        while j < m
            invariant
                n == entities@.len(),
                es == entities@,
                forall|q: int| 0 <= q < es.len() ==> entity_fits(#[trigger] es[q]),
                0 <= i < n,
                m == entities@[i as int].attributes@.len(),
                0 <= j <= m,
                canvas.deep_view() == edges_of_entity(edges_drawn(a, es, i as int), es, i as int, j as int),
                route_overlay(a, canvas.deep_view(), es),
            decreases m - j,
        {
            let ghost before = canvas.deep_view();
            draw_relationship(&mut canvas, entities, i, j);
            proof {
                lemma_route_overlay_trans(a, before, canvas.deep_view(), es);
                assert(canvas.deep_view() =~~= edge_grid(before, es, i as int, j as int));
            }
            j += 1;
        }
        i += 1;
    }
    let text = canvas_text(&canvas);
    (canvas, text)
}

/// Step ceiling of the greedy router: however pathological the geometry,
/// the walk stops after this many cells.
pub const MAX_ROUTE_STEPS: usize = 1000;

/// The cell one step from `(cx, cy)` towards `(tx, ty)` along the axis
/// with the larger remaining distance.
pub open spec fn fk_next_cell(cx: int, cy: int, tx: int, ty: int) -> (int, int) {
    if abs_of(tx - cx) < abs_of(ty - cy) {
        if ty > cy {
            (cx, cy + 1)
        } else {
            (cx, cy - 1)
        }
    } else {
        if tx > cx {
            (cx + 1, cy)
        } else {
            (cx - 1, cy)
        }
    }
}

/// The greedy walk can take a plain drawing step: it has fuel, the
/// cursor is off the target, and the next cell along the preferred axis
/// is on the canvas, blank, and outside every content area.
pub open spec fn fk_step_ready(
    g: Seq<Seq<char>>,
    es: Seq<Entity>,
    cx: int,
    cy: int,
    tx: int,
    ty: int,
    depth: int,
) -> bool {
    let n = fk_next_cell(cx, cy, tx, ty);
    &&& depth < MAX_ROUTE_STEPS
    &&& !(cx == tx && cy == ty)
    &&& 0 <= n.0
    &&& 0 <= n.1 < g.len()
    &&& n.0 < g[n.1].len()
    &&& g[n.1][n.0] == ' '
    &&& !inside_content(es, n.0, n.1)
}

/// Greedy cell-by-cell router: walk from `(cur_x, cur_y)` towards
/// `(to_x, to_y)`, preferring the axis with the larger remaining
/// distance, drawing line glyphs over blank cells and turning with a
/// corner glyph whenever the next cell is blocked -- inside an entity's
/// content area, already occupied, or off the canvas.  `depth` counts
/// steps already taken; the walk gives up once `MAX_ROUTE_STEPS` is
/// reached, so it terminates even when no free path exists.  Whatever
/// path it takes, it never writes into any entity's content area and
/// adds route glyphs only; and whenever it can take a plain drawing
/// step, the cell one step along the preferred axis ends up holding a
/// route glyph.
pub fn draw_fk_with_depth(
    cur_x: usize,
    cur_y: usize,
    to_x: usize,
    to_y: usize,
    canvas: &mut Vec<Vec<char>>,
    depth: usize,
    entities: &Vec<Entity>,
)
    requires
        forall|i: int| 0 <= i < entities@.len() ==> entity_fits(#[trigger] entities@[i]),
        cur_x <= 2 * COORD_MAX,
        cur_y <= 2 * COORD_MAX,
        to_x <= 2 * COORD_MAX,
        to_y <= 2 * COORD_MAX,
    ensures
        route_overlay(old(canvas).deep_view(), final(canvas).deep_view(), entities@),
        fk_step_ready(
            old(canvas).deep_view(),
            entities@,
            cur_x as int,
            cur_y as int,
            to_x as int,
            to_y as int,
            depth as int,
        ) ==> ({
            let n = fk_next_cell(cur_x as int, cur_y as int, to_x as int, to_y as int);
            is_route_glyph(final(canvas).deep_view()[n.1][n.0])
        }),
{
    let ghost a = canvas.deep_view();
    let ghost es = entities@;
    let mut x = cur_x;
    let mut y = cur_y;
    let mut fuel: usize = if depth < MAX_ROUTE_STEPS { MAX_ROUTE_STEPS - depth } else { 0 };
    while fuel > 0
        invariant
            a == old(canvas).deep_view(),
            es == entities@,
            forall|q: int| 0 <= q < es.len() ==> entity_fits(#[trigger] es[q]),
            to_x <= 2 * COORD_MAX,
            to_y <= 2 * COORD_MAX,
            fuel <= MAX_ROUTE_STEPS,
            x <= 2 * COORD_MAX + MAX_ROUTE_STEPS - fuel,
            y <= 2 * COORD_MAX + MAX_ROUTE_STEPS - fuel,
            route_overlay(a, canvas.deep_view(), es),
            fk_step_ready(a, es, cur_x as int, cur_y as int, to_x as int, to_y as int, depth as int)
                ==> ({
                    let n = fk_next_cell(cur_x as int, cur_y as int, to_x as int, to_y as int);
                    is_route_glyph(canvas.deep_view()[n.1][n.0])
                        || (x == cur_x && y == cur_y && canvas.deep_view() == a
                            && fuel == MAX_ROUTE_STEPS - depth)
                }),
        decreases fuel,
    {
        let ghost start_of_walk = x == cur_x && y == cur_y && canvas.deep_view() == a;
        if x == to_x && y == to_y {
            return;
        }

        // Prefer the axis with the larger remaining distance.
        let dist_x = if to_x >= x { to_x - x } else { x - to_x };
        let dist_y = if to_y >= y { to_y - y } else { y - to_y };
        let move_y = dist_x < dist_y;

        // The cell one step along the preferred axis.
        let stepped = if move_y {
            if to_y > y {
                Some((x, y + 1))
            } else if y > 0 {
                Some((x, y - 1))
            } else {
                None
            }
        } else {
            if to_x > x {
                Some((x + 1, y))
            } else if x > 0 {
                Some((x - 1, y))
            } else {
                None
            }
        };
        let (next_x, next_y) = match stepped {
            Some(p) => p,
            None => {
                return;
            }
        };
        proof {
            if start_of_walk {
                assert((next_x as int, next_y as int) == fk_next_cell(
                    cur_x as int,
                    cur_y as int,
                    to_x as int,
                    to_y as int,
                ));
            }
        }

        let next_blocked = is_inside_entity_content(next_x, next_y, entities)
            || match crate::canvas::read_cell(canvas, next_x, next_y) {
                Some(ch) => ch != ' ',
                None => true,
            };
        let prev = match crate::canvas::read_cell(canvas, x, y) {
            Some(ch) => ch,
            None => ' ',
        };

        let ghost mid = canvas.deep_view();
        if next_blocked {
            // Turn: mark the turn at the current cell and sidestep on
            // the other axis, towards the target.
            if move_y {
                let going_down = to_y > y;
                let going_right = to_x > x;
                let corner = if prev == '\u{2502}' {
                    if going_down {
                        if going_right { '\u{2514}' } else { '\u{2518}' }
                    } else {
                        if going_right { '\u{250c}' } else { '\u{2510}' }
                    }
                } else {
                    '\u{2500}'
                };
                put_route_glyph(canvas, x, y, corner, entities);
                if going_right {
                    x += 1;
                } else if x > 0 {
                    x -= 1;
                } else {
                    proof {
                        lemma_route_overlay_trans(a, mid, canvas.deep_view(), es);
                    }
                    return;
                }
            } else {
                let going_down = to_y > y;
                let going_right = to_x > x;
                let corner = if prev == '\u{2500}' {
                    if going_right {
                        if going_down { '\u{2510}' } else { '\u{2518}' }
                    } else {
                        if going_down { '\u{250c}' } else { '\u{2514}' }
                    }
                } else {
                    '\u{2502}'
                };
                put_route_glyph(canvas, x, y, corner, entities);
                if going_down {
                    y += 1;
                } else if y > 0 {
                    y -= 1;
                } else {
                    proof {
                        lemma_route_overlay_trans(a, mid, canvas.deep_view(), es);
                    }
                    return;
                }
            }
        } else {
            // Free cell: upgrade the current cell to a corner if the
            // direction changes axis, then draw the line glyph.
            if move_y {
                if prev == '\u{2500}' {
                    let corner = if to_y > y {
                        if to_x >= x { '\u{2510}' } else { '\u{250c}' }
                    } else {
                        if to_x >= x { '\u{2518}' } else { '\u{2514}' }
                    };
                    put_route_glyph(canvas, x, y, corner, entities);
                }
            } else {
                if prev == '\u{2502}' {
                    let corner = if to_x > x {
                        if to_y >= y { '\u{2514}' } else { '\u{250c}' }
                    } else {
                        if to_y >= y { '\u{2518}' } else { '\u{2510}' }
                    };
                    put_route_glyph(canvas, x, y, corner, entities);
                }
            }
            proof {
                lemma_route_overlay_trans(a, mid, canvas.deep_view(), es);
            }
            let ghost mid2 = canvas.deep_view();
            put_route_glyph(
                canvas,
                next_x,
                next_y,
                if move_y { '\u{2502}' } else { '\u{2500}' },
                entities,
            );
            proof {
                lemma_route_overlay_trans(a, mid2, canvas.deep_view(), es);
            }
            x = next_x;
            y = next_y;
        }
        proof {
            lemma_route_overlay_trans(a, mid, canvas.deep_view(), es);
        }
        fuel -= 1;
    }
}

} // verus!