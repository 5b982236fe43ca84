//! A cursor-driven walker over an already painted diagram.
//!
//! `Diagram` keeps a canvas, a current point and a target point; each call
//! of `analyze_direction` advances the walk one drawing step towards the
//! target, picking the axis with the larger remaining distance, upgrading
//! the current cell to a corner glyph when the direction turns, and
//! stopping at the target's arrow port.  The walk only ever draws over
//! blank cells or over line glyphs already on the canvas, and every glyph
//! it writes comes from the connector alphabet.

use vstd::prelude::*;

use crate::canvas::{put_cell, put_spec, same_dims};
use crate::render::{canvas_text, joined_rows, MAX_ROUTE_STEPS};

verus! {

/// Direction of one step of the walk; `Stay` means no movement.
#[derive(Debug, Clone, Copy, PartialEq, Eq, Structural)]
pub enum Direction {
    Up,
    Down,
    Left,
    Right,
    Stay,
}

/// The glyph alphabet of the walker, one variant per canvas character.
#[derive(Debug, Clone, Copy, PartialEq, Eq, Structural)]
pub enum Char {
    Horizontal,
    Vertical,
    UpRight,
    DownRight,
    RightUp,
    RightDown,
    FkFrom,
    FkTo,
    Blank,
}

/// The canvas character of each glyph.
pub open spec fn char_of_glyph(g: Char) -> char {
    match g {
        Char::Horizontal => '\u{2500}',
        Char::Vertical => '\u{2502}',
        Char::UpRight => '\u{250c}',
        Char::DownRight => '\u{2514}',
        Char::RightUp => '\u{2518}',
        Char::RightDown => '\u{2510}',
        Char::FkFrom => '\u{251c}',
        Char::FkTo => '\u{2192}',
        Char::Blank => ' ',
    }
}

/// The glyph of a canvas character, if it belongs to the alphabet.
pub open spec fn glyph_of_char(ch: char) -> Option<Char> {
    if ch == '\u{2500}' {
        Some(Char::Horizontal)
    } else if ch == '\u{2502}' {
        Some(Char::Vertical)
    } else if ch == '\u{250c}' {
        Some(Char::UpRight)
    } else if ch == '\u{2514}' {
        Some(Char::DownRight)
    } else if ch == '\u{2518}' {
        Some(Char::RightUp)
    } else if ch == '\u{2510}' {
        Some(Char::RightDown)
    } else if ch == '\u{251c}' {
        Some(Char::FkFrom)
    } else if ch == '\u{2192}' {
        Some(Char::FkTo)
    } else if ch == ' ' {
        Some(Char::Blank)
    } else {
        None
    }
}

impl Char {
    /// The canvas character of this glyph.
    pub fn as_char(&self) -> (c: char)
        ensures
            c == char_of_glyph(*self),
    {
        match self {
            Char::Horizontal => '\u{2500}',
            Char::Vertical => '\u{2502}',
            Char::UpRight => '\u{250c}',
            Char::DownRight => '\u{2514}',
            Char::RightUp => '\u{2518}',
            Char::RightDown => '\u{2510}',
            Char::FkFrom => '\u{251c}',
            Char::FkTo => '\u{2192}',
            Char::Blank => ' ',
        }
    }

    /// The glyph of a canvas character that belongs to the alphabet.
    pub fn from_char(ch: char) -> (g: Char)
        requires
            glyph_of_char(ch) is Some,
        ensures
            Some(g) == glyph_of_char(ch),
    {
        match Self::try_from_char(ch) {
            Some(g) => g,
            None => Char::Blank,
        }
    }

    /// The glyph of a canvas character, or `None` for a foreign one.
    pub fn try_from_char(ch: char) -> (g: Option<Char>)
        ensures
            g == glyph_of_char(ch),
    {
        if ch == '\u{2500}' {
            Some(Char::Horizontal)
        } else if ch == '\u{2502}' {
            Some(Char::Vertical)
        } else if ch == '\u{250c}' {
            Some(Char::UpRight)
        } else if ch == '\u{2514}' {
            Some(Char::DownRight)
        } else if ch == '\u{2518}' {
            Some(Char::RightUp)
        } else if ch == '\u{2510}' {
            Some(Char::RightDown)
        } else if ch == '\u{251c}' {
            Some(Char::FkFrom)
        } else if ch == '\u{2192}' {
            Some(Char::FkTo)
        } else if ch == ' ' {
            Some(Char::Blank)
        } else {
            None
        }
    }
}

/// A position on the canvas.
#[derive(Debug, Clone, Copy, PartialEq, Eq, Structural)]
pub struct Point {
    pub x: usize,
    pub y: usize,
}

impl Point {
    /// The point at column `x`, row `y`.
    pub fn new(x: usize, y: usize) -> (p: Point)
        ensures
            p.x == x && p.y == y,
    {
        Point { x, y }
    }

    /// The neighbouring point one step along `direction`.
    pub fn next(&self, direction: &Direction) -> (p: Point)
        requires
            *direction == Direction::Up ==> self.y >= 1,
            *direction == Direction::Left ==> self.x >= 1,
            *direction == Direction::Down ==> self.y < usize::MAX,
            *direction == Direction::Right ==> self.x < usize::MAX,
        ensures
            p == step_point(*self, *direction),
    {
        match direction {
            Direction::Up => Point { x: self.x, y: self.y - 1 },
            Direction::Down => Point { x: self.x, y: self.y + 1 },
            Direction::Left => Point { x: self.x - 1, y: self.y },
            Direction::Right => Point { x: self.x + 1, y: self.y },
            Direction::Stay => Point { x: self.x, y: self.y },
        }
    }

    /// The neighbouring point one step against `direction`.
    pub fn back(&self, direction: &Direction) -> (p: Point)
        requires
            *direction == Direction::Down ==> self.y >= 1,
            *direction == Direction::Right ==> self.x >= 1,
            *direction == Direction::Up ==> self.y < usize::MAX,
            *direction == Direction::Left ==> self.x < usize::MAX,
        ensures
            p == step_point(*self, opposite(*direction)),
    {
        match direction {
            Direction::Up => Point { x: self.x, y: self.y + 1 },
            Direction::Down => Point { x: self.x, y: self.y - 1 },
            Direction::Left => Point { x: self.x + 1, y: self.y },
            Direction::Right => Point { x: self.x - 1, y: self.y },
            Direction::Stay => Point { x: self.x, y: self.y },
        }
    }

    /// The glyph under this point; the cell must hold an alphabet
    /// character.
    pub fn get_char(&self, canvas: &Vec<Vec<char>>) -> (g: Char)
        requires
            self.y < canvas.deep_view().len(),
            self.x < canvas.deep_view()[self.y as int].len(),
            glyph_of_char(canvas.deep_view()[self.y as int][self.x as int]) is Some,
        ensures
            Some(g) == glyph_of_char(canvas.deep_view()[self.y as int][self.x as int]),
    {
        Char::from_char(canvas[self.y][self.x])
    }
}

/// Where one step along `d` from `p` lands.
pub open spec fn step_point(p: Point, d: Direction) -> Point {
    match d {
        Direction::Up => Point { x: p.x, y: (p.y - 1) as usize },
        Direction::Down => Point { x: p.x, y: (p.y + 1) as usize },
        Direction::Left => Point { x: (p.x - 1) as usize, y: p.y },
        Direction::Right => Point { x: (p.x + 1) as usize, y: p.y },
        Direction::Stay => p,
    }
}

/// Two points are the same cell or orthogonal neighbours.
pub open spec fn adjacent_or_same(p: Point, q: Point) -> bool {
    abs_diff(p.x as int, q.x as int) + abs_diff(p.y as int, q.y as int) <= 1
}

/// Distance between two values.
pub open spec fn abs_diff(a: int, b: int) -> int {
    if a >= b {
        a - b
    } else {
        b - a
    }
}

/// Whether `(x, y)` of `p` lies on grid `g`.
pub open spec fn on_canvas(g: Seq<Seq<char>>, p: Point) -> bool {
    p.y < g.len() && p.x < g[p.y as int].len()
}

/// The character of grid `g` under `p`.
pub open spec fn canvas_cell(g: Seq<Seq<char>>, p: Point) -> char {
    g[p.y as int][p.x as int]
}

/// The direction the walk picks when none is given: the axis with the
/// larger remaining distance, towards the target; `Stay` at the target.
pub open spec fn chosen_direction(p: Point, t: Point) -> Direction {
    let hd = abs_diff(t.x as int, p.x as int);
    let vd = abs_diff(t.y as int, p.y as int);
    if vd < hd {
        if t.x < p.x {
            Direction::Left
        } else {
            Direction::Right
        }
    } else if t.y < p.y {
        Direction::Up
    } else if hd == 0 && vd == 0 {
        Direction::Stay
    } else {
        Direction::Down
    }
}

/// One step along `d` from `p` stays within the coordinate space.
pub open spec fn step_fits(p: Point, d: Direction) -> bool {
    match d {
        Direction::Up => p.y >= 1,
        Direction::Down => p.y < usize::MAX,
        Direction::Left => p.x >= 1,
        Direction::Right => p.x < usize::MAX,
        Direction::Stay => false,
    }
}

/// The walk can take a plain drawing step: no direction was given, the
/// cursor is off the target on a readable glyph, and the next cell
/// along the picked axis is on the canvas and blank.
pub open spec fn step_ready(d: Diagram, dir: Option<Direction>) -> bool {
    let g = d.canvas.deep_view();
    let c = chosen_direction(d.point, d.target);
    &&& dir is None
    &&& d.point != d.target
    &&& on_canvas(g, d.point)
    &&& glyph_of_char(canvas_cell(g, d.point)) is Some
    &&& step_fits(d.point, c)
    &&& on_canvas(g, step_point(d.point, c))
    &&& canvas_cell(g, step_point(d.point, c)) == ' '
}

/// The direction that undoes `d`.
pub open spec fn opposite(d: Direction) -> Direction {
    match d {
        Direction::Up => Direction::Down,
        Direction::Down => Direction::Up,
        Direction::Left => Direction::Right,
        Direction::Right => Direction::Left,
        Direction::Stay => Direction::Stay,
    }
}

/// Characters the walker is allowed to draw over: blanks and plain line
/// glyphs, never box corners, text or borders' junction glyphs.
pub open spec fn is_overwritable(ch: char) -> bool {
    ch == ' ' || ch == '\u{2500}' || ch == '\u{2502}'
}

/// The six characters the walker may draw: straight fill and the four
/// corners -- never ports, arrowheads or anything else.
pub open spec fn is_walk_glyph(ch: char) -> bool {
    ||| ch == '\u{2500}'
    ||| ch == '\u{2502}'
    ||| ch == '\u{250c}'
    ||| ch == '\u{2510}'
    ||| ch == '\u{2514}'
    ||| ch == '\u{2518}'
}

/// Grid `b` is grid `a` after some walking: dimensions kept, every
/// changed cell held a blank or a line glyph before and holds one of the
/// walker's six line and corner glyphs now.
pub open spec fn walk_overlay(a: Seq<Seq<char>>, b: Seq<Seq<char>>) -> bool {
    &&& same_dims(a, b)
    &&& forall|r: int, c: int| 0 <= r < a.len() && 0 <= c < a[r].len() && b[r][c] != a[r][c]
        ==> is_walk_glyph(#[trigger] b[r][c]) && is_overwritable(a[r][c])
}

/// A canvas with a walking cursor and its target.
pub struct Diagram {
    pub canvas: Vec<Vec<char>>,
    pub point: Point,
    pub target: Point,
}

impl Diagram {
    /// A walk over `content` towards `target`, starting at the origin.
    pub fn new(content: Vec<Vec<char>>, target: Point) -> (d: Diagram)
        ensures
            d.canvas == content,
            d.point == (Point { x: 0, y: 0 }),
            d.target == target,
    {
        Diagram { canvas: content, point: Point::new(0, 0), target }
    }

    /// Move the cursor one step along `direction`.
    pub fn next(&mut self, direction: &Direction)
        requires
            *direction == Direction::Up ==> old(self).point.y >= 1,
            *direction == Direction::Left ==> old(self).point.x >= 1,
            *direction == Direction::Down ==> old(self).point.y < usize::MAX,
            *direction == Direction::Right ==> old(self).point.x < usize::MAX,
        ensures
            final(self).point == step_point(old(self).point, *direction),
            final(self).canvas == old(self).canvas,
            final(self).target == old(self).target,
    {
        self.point = self.point.next(direction);
    }

    /// The character under the cursor.
    pub fn get_char(&self) -> (c: char)
        requires
            self.point.y < self.canvas.deep_view().len(),
            self.point.x < self.canvas.deep_view()[self.point.y as int].len(),
        ensures
            c == self.canvas.deep_view()[self.point.y as int][self.point.x as int],
    {
        self.canvas[self.point.y][self.point.x]
    }

    /// Write `ch` under the cursor.
    pub fn set_char(&mut self, ch: char)
        requires
            old(self).point.y < old(self).canvas.deep_view().len(),
            old(self).point.x < old(self).canvas.deep_view()[old(self).point.y as int].len(),
        ensures
            final(self).canvas.deep_view() =~= put_spec(
                old(self).canvas.deep_view(),
                old(self).point.x as int,
                old(self).point.y as int,
                ch,
            ),
            final(self).point == old(self).point,
            final(self).target == old(self).target,
    {
        put_cell(&mut self.canvas, self.point.x, self.point.y, ch);
    }

    /// The canvas as text, rows joined by newlines.
    pub fn to_string(&self) -> (s: String)
        ensures
            s@ == joined_rows(self.canvas.deep_view()),
    {
        canvas_text(&self.canvas)
    }
}


/// Route overlays of the walker compose.
proof fn lemma_walk_overlay_trans(a: Seq<Seq<char>>, b: Seq<Seq<char>>, c: Seq<Seq<char>>)
    requires
        walk_overlay(a, b),
        walk_overlay(b, c),
    ensures
        walk_overlay(a, c),
{
    assert forall|r: int, col: int|
        0 <= r < a.len() && 0 <= col < a[r].len() && c[r][col] != a[r][col]
        implies is_walk_glyph(#[trigger] c[r][col]) && is_overwritable(a[r][col]) by {
        if c[r][col] != b[r][col] {
            assert(is_overwritable(b[r][col]));
        } else {
            assert(b[r][col] != a[r][col]);
        }
    }
}

/// The line glyphs the walker may draw.
pub open spec fn is_drawn_glyph(g: Char) -> bool {
    match g {
        Char::Horizontal | Char::Vertical | Char::UpRight | Char::DownRight | Char::RightUp
            | Char::RightDown => true,
        _ => false,
    }
}

impl Diagram {
    /// The glyph at `(x, y)`, or `None` when the cell is off the canvas
    /// or holds a character outside the alphabet.
    fn read_glyph(&self, x: usize, y: usize) -> (g: Option<Char>)
        ensures
            g == (if 0 <= y < self.canvas.deep_view().len()
                && 0 <= x < self.canvas.deep_view()[y as int].len() {
                glyph_of_char(self.canvas.deep_view()[y as int][x as int])
            } else {
                None
            }),
    {
        match crate::canvas::read_cell(&self.canvas, x, y) {
            Some(ch) => Char::try_from_char(ch),
            None => None,
        }
    }

    /// Draw glyph `g` at `(x, y)`: the cell must be on the canvas and
    /// hold a blank or a plain line glyph.
    fn scribble(&mut self, x: usize, y: usize, g: Char)
        requires
            is_drawn_glyph(g),
            y < old(self).canvas.deep_view().len(),
            x < old(self).canvas.deep_view()[y as int].len(),
            is_overwritable(old(self).canvas.deep_view()[y as int][x as int]),
        ensures
            final(self).canvas.deep_view() == put_spec(
                old(self).canvas.deep_view(),
                x as int,
                y as int,
                char_of_glyph(g),
            ),
            walk_overlay(old(self).canvas.deep_view(), final(self).canvas.deep_view()),
            final(self).point == old(self).point,
            final(self).target == old(self).target,
    {
        let ch = g.as_char();
        put_cell(&mut self.canvas, x, y, ch);
    }

    /// One drawing step of the walk towards the target.
    ///
    /// The step picks the axis with the larger remaining distance (or
    /// follows `direction` when one is given), draws a line glyph onto
    /// the next blank cell, upgrades the current cell to the fitting
    /// corner glyph when the direction turns, and follows existing line
    /// glyphs around obstacles.  The walk is bounded: whatever the
    /// canvas holds, the call returns after a fixed number of turns,
    /// and it only ever draws over blank cells or plain line glyphs,
    /// always with glyphs of the connector alphabet.
    pub fn analyze_direction(&mut self, direction: Option<Direction>) -> (d: Direction)
        ensures
            walk_overlay(old(self).canvas.deep_view(), final(self).canvas.deep_view()),
            final(self).target == old(self).target,
            adjacent_or_same(final(self).point, old(self).point),
            old(self).point == old(self).target && direction is None ==> d == Direction::Stay
                && final(self).canvas.deep_view() == old(self).canvas.deep_view()
                && final(self).point == old(self).point,
            step_ready(*old(self), direction) ==> ({
                let c = chosen_direction(old(self).point, old(self).target);
                let n = step_point(old(self).point, c);
                &&& d == Direction::Stay
                &&& final(self).point == n
                &&& final(self).canvas.deep_view()[n.y as int][n.x as int] == (
                    if c == Direction::Left || c == Direction::Right {
                        '\u{2500}'
                    } else {
                        '\u{2502}'
                    })
            }),
    {
        let ghost a = self.canvas.deep_view();
        let mut dir: Option<Direction> = direction;
        let mut fuel: usize = MAX_ROUTE_STEPS;
        while fuel > 0
            invariant
                a == old(self).canvas.deep_view(),
                walk_overlay(a, self.canvas.deep_view()),
                self.target == old(self).target,
                self.point == old(self).point,
                dir is None ==> self.canvas.deep_view() == a,
                step_ready(*old(self), direction) ==> dir is None,
                direction is None && old(self).point == old(self).target ==> dir is None,
                fuel < MAX_ROUTE_STEPS ==> dir is Some,
            decreases fuel,
        {
            let ghost dir_top = dir;
            let x = self.point.x;
            let y = self.point.y;
            let tx = self.target.x;
            let ty = self.target.y;

            let horizontal_distance = if tx >= x { tx - x } else { x - tx };
            let vertical_distance = if ty >= y { ty - y } else { y - ty };

            let try_direction = match dir {
                Some(d0) => d0,
                None => {
                    if vertical_distance < horizontal_distance {
                        if tx < x {
                            Direction::Left
                        } else {
                            Direction::Right
                        }
                    } else if ty < y {
                        Direction::Up
                    } else if horizontal_distance == 0 && vertical_distance == 0 {
                        return Direction::Stay;
                    } else {
                        Direction::Down
                    }
                }
            };
            proof {
                if dir_top is None {
                    assert(horizontal_distance == abs_diff(tx as int, x as int));
                    assert(vertical_distance == abs_diff(ty as int, y as int));
                    assert(try_direction == chosen_direction(self.point, self.target));
                }
            }

            let cur_char = match self.read_glyph(x, y) {
                Some(g) => g,
                None => {
                    return Direction::Stay;
                }
            };

            let next = match try_direction {
                Direction::Up => if y >= 1 { Some((x, y - 1)) } else { None },
                Direction::Down => if y < usize::MAX { Some((x, y + 1)) } else { None },
                Direction::Left => if x >= 1 { Some((x - 1, y)) } else { None },
                Direction::Right => if x < usize::MAX { Some((x + 1, y)) } else { None },
                Direction::Stay => None,
            };
            let (nx, ny) = match next {
                Some(p) => p,
                None => {
                    return Direction::Stay;
                }
            };

            proof {
                assert(Point { x: nx, y: ny } == step_point(Point { x, y }, try_direction));
                assert(step_fits(Point { x, y }, try_direction));
            }
            let try_char = match self.read_glyph(nx, ny) {
                Some(g) => g,
                None => {
                    return Direction::Stay;
                }
            };

            let ghost mid = self.canvas.deep_view();
            if try_char == Char::Blank {
                // The next cell is free: draw into it, bending the line
                // at the current cell if the axis changes.
                if cur_char == Char::Horizontal
                    && (try_direction == Direction::Up || try_direction == Direction::Down) {
                    let corner = if try_direction == Direction::Up {
                        if x < tx { Char::RightUp } else { Char::DownRight }
                    } else {
                        if x < tx { Char::RightDown } else { Char::UpRight }
                    };
                    self.scribble(x, y, corner);
                    proof {
                        lemma_walk_overlay_trans(a, mid, self.canvas.deep_view());
                    }
                    let ghost mid2 = self.canvas.deep_view();
                    self.scribble(nx, ny, Char::Vertical);
                    proof {
                        lemma_walk_overlay_trans(a, mid2, self.canvas.deep_view());
                    }
                    self.point = Point::new(nx, ny);
                    return Direction::Stay;
                }
                if cur_char == Char::Vertical
                    && (try_direction == Direction::Left || try_direction == Direction::Right) {
                    let corner = if try_direction == Direction::Left {
                        if y < ty { Char::RightUp } else { Char::RightDown }
                    } else {
                        if y < ty { Char::DownRight } else { Char::RightUp }
                    };
                    self.scribble(x, y, corner);
                    proof {
                        lemma_walk_overlay_trans(a, mid, self.canvas.deep_view());
                    }
                    let ghost mid2 = self.canvas.deep_view();
                    self.scribble(nx, ny, Char::Horizontal);
                    proof {
                        lemma_walk_overlay_trans(a, mid2, self.canvas.deep_view());
                    }
                    self.point = Point::new(nx, ny);
                    return Direction::Stay;
                }
                // Same axis, or a port glyph under the cursor: draw the
                // plain line glyph one cell further.
                let line = match try_direction {
                    Direction::Left | Direction::Right => Char::Horizontal,
                    _ => Char::Vertical,
                };
                self.scribble(nx, ny, line);
                proof {
                    lemma_walk_overlay_trans(a, mid, self.canvas.deep_view());
                }
                self.point = Point::new(nx, ny);
                return Direction::Stay;
            } else if cur_char == Char::Horizontal && try_direction == Direction::Right
                && try_char == Char::Vertical {
                let turn = if y < ty {
                    self.scribble(x, y, Char::RightDown);
                    Direction::Down
                } else {
                    self.scribble(x, y, Char::RightUp);
                    Direction::Up
                };
                proof {
                    lemma_walk_overlay_trans(a, mid, self.canvas.deep_view());
                }
                dir = Some(turn);
            } else if cur_char == Char::Horizontal && try_direction == Direction::Left
                && try_char == Char::Vertical {
                let turn = if y < ty {
                    self.scribble(x, y, Char::UpRight);
                    Direction::Down
                } else {
                    self.scribble(x, y, Char::DownRight);
                    Direction::Up
                };
                proof {
                    lemma_walk_overlay_trans(a, mid, self.canvas.deep_view());
                }
                dir = Some(turn);
            } else if cur_char == Char::Vertical && try_direction == Direction::Up
                && try_char == Char::Horizontal {
                let turn = if x < tx {
                    self.scribble(x, y, Char::UpRight);
                    Direction::Right
                } else {
                    self.scribble(x, y, Char::RightDown);
                    Direction::Left
                };
                proof {
                    lemma_walk_overlay_trans(a, mid, self.canvas.deep_view());
                }
                dir = Some(turn);
            } else if cur_char == Char::Vertical && try_direction == Direction::Down
                && try_char == Char::Horizontal {
                let turn = if x < tx {
                    self.scribble(x, y, Char::DownRight);
                    Direction::Right
                } else {
                    self.scribble(x, y, Char::RightUp);
                    Direction::Left
                };
                proof {
                    lemma_walk_overlay_trans(a, mid, self.canvas.deep_view());
                }
                dir = Some(turn);
            } else if try_char == Char::FkTo && try_direction == Direction::Right
                && (cur_char == Char::Horizontal || cur_char == Char::DownRight
                    || cur_char == Char::UpRight) {
                // Reached the target's arrow port.
                return Direction::Stay;
            } else if cur_char == Char::Vertical && try_direction == Direction::Right {
                dir = Some(if y < ty { Direction::Down } else { Direction::Up });
            } else {
                // No rule fits this glyph pair: stop rather than guess.
                return Direction::Stay;
            }
            proof {
                if dir_top is None && step_ready(*old(self), direction) {
                    assert(try_char == Char::Blank);
                    assert(false);
                }
            }
            fuel -= 1;
        }
        Direction::Stay
    }
}

} // verus!
