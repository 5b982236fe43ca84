//! Force-directed placement of schema entities.
//!
//! Positions are whole grid units held in `i64`; forces and velocities
//! are accumulated in thousandths of a unit, so the relaxation keeps
//! sub-unit precision without floating point.  Every pass applies a
//! repulsive force between each pair of entities, an attractive spring
//! force along each relationship edge, converts the net force to a
//! damped, magnitude-clamped velocity, and finally clamps every position
//! back into the margins of the layout area.

use vstd::prelude::*;

use crate::models::{Entity, Position, Schema};

verus! {

/// Widest layout area the engine accepts, in grid units.
pub const LAYOUT_LIMIT: i64 = 1_000_000;

/// Fixed number of relaxation passes.
pub const ITERATIONS: usize = 100;

/// Numerator of the repulsive force between two entities.
pub const REPULSION_STRENGTH: i64 = 5000;

/// Spring constant of the attractive force along an edge.
pub const ATTRACTION_STRENGTH: i64 = 100;

/// Resting distance of the spring along an edge.
pub const IDEAL_DISTANCE: i64 = 150;

/// Velocity cap, in thousandths of a unit per pass.
pub const MAX_VELOCITY_MILLIS: i64 = 10_000;

/// Margin that `keep_within_bounds` clamps every position into.
pub const BOUNDS_MARGIN: i64 = 50;

/// Cap on a single force term, in thousandths of a unit.
pub const CONTRIB_CAP: i64 = 1_000_000_000;

/// Cap on an accumulated net force, in thousandths of a unit.
pub const FORCE_CAP: i64 = 1_000_000_000_000;

/// Integer square root: the largest `r` with `r * r <= x`.
fn isqrt_u64(x: u64) -> (r: u64)
    requires
        x <= 0x4000_0000_0000_0000,
    ensures
        r * r <= x < (r + 1) * (r + 1),
        r <= 0x8000_0000,
{
    let mut r: u64 = 0;
    proof {
        assert(1u64 * 1u64 == 1) by (nonlinear_arith);
    }
    while next_square_fits(r, x)
        invariant
            x <= 0x4000_0000_0000_0000,
            r * r <= x,
            r <= 0x8000_0000,
        decreases x - r,
    {
        r = r + 1;
        proof {
            assert(r <= 0x8000_0000) by (nonlinear_arith)
                requires
                    r * r <= 0x4000_0000_0000_0000u64,
                    r >= 1,
            ;
            assert(r < x + 1) by (nonlinear_arith)
                requires
                    r * r <= x,
                    r >= 1,
            ;
        }
    }
    r
}

/// Whether the square of `r + 1` still fits under `x`.
fn next_square_fits(r: u64, x: u64) -> (b: bool)
    requires
        r <= 0x8000_0000,
    ensures
        b == ((r + 1) * (r + 1) <= x),
{
    proof {
        assert((r + 1) * (r + 1) <= 0x4000_0001_0000_0001) by (nonlinear_arith)
            requires
                r <= 0x8000_0000u64,
        ;
    }
    (r + 1) * (r + 1) <= x
}

/// Value of `v` clamped into `[lo, hi]`.
pub open spec fn clamp_val(v: int, lo: int, hi: int) -> int {
    if v < lo {
        lo
    } else if v > hi {
        hi
    } else {
        v
    }
}

/// Clamping twice is clamping once, and a value already inside the band
/// is unchanged.
pub proof fn lemma_clamp_idempotent(v: int, lo: int, hi: int)
    requires
        lo <= hi,
    ensures
        clamp_val(clamp_val(v, lo, hi), lo, hi) == clamp_val(v, lo, hi),
        lo <= v <= hi ==> clamp_val(v, lo, hi) == v,
{
}

/// Clamp `v` into `[lo, hi]`.
fn clamp_i64(v: i64, lo: i64, hi: i64) -> (r: i64)
    requires
        lo <= hi,
    ensures
        r == clamp_val(v as int, lo as int, hi as int),
        lo <= r <= hi,
        lo <= v <= hi ==> r == v,
{
    if v < lo {
        lo
    } else if v > hi {
        hi
    } else {
        v
    }
}

/// Magnitude of `v` as `u64`.
fn abs_u64(v: i64) -> (m: u64)
    requires
        v > i64::MIN,
    ensures
        m == (if v >= 0 { v as int } else { -v as int }),
{
    if v >= 0 {
        v as u64
    } else {
        (-v) as u64
    }
}

/// One axis of the repulsive force between two entities a distance `d`
/// apart and `delta` apart on this axis, in thousandths of a unit:
/// proportional to `delta` and inversely proportional to the cube of the
/// distance, which is the inverse-square law projected onto the axis.
fn repulsion_component(delta: i64, d: u64) -> (f: i64)
    requires
        1 <= d,
        -4_000_000 <= delta <= 4_000_000,
    ensures
        -20_000_000_000_000 <= f <= 20_000_000_000_000,
{
    let neg = delta < 0;
    let m: u64 = abs_u64(delta);
    let t: u64 = m * 5_000_000;
    let q1: u64 = t / d;
    let q2: u64 = q1 / d;
    let q3: u64 = q2 / d;
    proof {
        vstd::arithmetic::div_mod::lemma_div_nonincreasing(t as int, d as int);
        vstd::arithmetic::div_mod::lemma_div_nonincreasing(q1 as int, d as int);
        vstd::arithmetic::div_mod::lemma_div_nonincreasing(q2 as int, d as int);
        vstd::arithmetic::div_mod::lemma_div_pos_is_pos(t as int, d as int);
        vstd::arithmetic::div_mod::lemma_div_pos_is_pos(q1 as int, d as int);
        vstd::arithmetic::div_mod::lemma_div_pos_is_pos(q2 as int, d as int);
    }
    let f = q3 as i64;
    if neg {
        -f
    } else {
        f
    }
}

/// One axis of the spring force along an edge whose entities are a
/// distance `d` apart and `delta` apart on this axis, in thousandths of
/// a unit: proportional to the stretch beyond the resting distance, and
/// pulling when stretched, pushing when compressed.
fn attraction_component(delta: i64, d: u64) -> (f: i64)
    requires
        1 <= d <= 10_000_000,
        -4_000_000 <= delta <= 4_000_000,
    ensures
        -4_000_000_000_000_000_000 <= f <= 4_000_000_000_000_000_000,
{
    let stretch: i64 = (d as i64) - IDEAL_DISTANCE;
    let neg = (delta < 0) != (stretch < 0);
    let md: u64 = abs_u64(delta) * 100_000;
    let ms: u64 = abs_u64(stretch);
    proof {
        assert(md * ms <= 4_000_000_000_000_000_000) by (nonlinear_arith)
            requires
                md <= 400_000_000_000u64,
                ms <= 10_000_000u64,
        ;
    }
    let prod: u64 = md * ms;
    let q1: u64 = prod / d;
    let q2: u64 = q1 / d;
    proof {
        vstd::arithmetic::div_mod::lemma_div_nonincreasing(prod as int, d as int);
        vstd::arithmetic::div_mod::lemma_div_nonincreasing(q1 as int, d as int);
        vstd::arithmetic::div_mod::lemma_div_pos_is_pos(prod as int, d as int);
        vstd::arithmetic::div_mod::lemma_div_pos_is_pos(q1 as int, d as int);
    }
    let f = q2 as i64;
    if neg {
        -f
    } else {
        f
    }
}

/// Distance between two positions, floored to one unit.
fn distance_of(ax: i64, ay: i64, bx: i64, by: i64) -> (d: u64)
    requires
        -2_000_000 <= ax <= 2_000_000,
        -2_000_000 <= ay <= 2_000_000,
        -2_000_000 <= bx <= 2_000_000,
        -2_000_000 <= by <= 2_000_000,
    ensures
        1 <= d <= 10_000_000,
{
    let dx: u64 = if ax >= bx { (ax - bx) as u64 } else { (bx - ax) as u64 };
    let dy: u64 = if ay >= by { (ay - by) as u64 } else { (by - ay) as u64 };
    proof {
        assert(dx * dx <= 16_000_000_000_000) by (nonlinear_arith)
            requires
                dx <= 4_000_000u64,
        ;
        assert(dy * dy <= 16_000_000_000_000) by (nonlinear_arith)
            requires
                dy <= 4_000_000u64,
        ;
    }
    let d2: u64 = dx * dx + dy * dy;
    let d = isqrt_u64(d2);
    proof {
        assert(d <= 10_000_000) by (nonlinear_arith)
            requires
                d * d <= 32_000_000_000_000u64,
        ;
    }
    if d == 0 {
        1
    } else {
        d
    }
}

/// Add a capped force term to an accumulated component.
fn accumulate(acc: i64, addend: i64) -> (r: i64)
    requires
        -FORCE_CAP <= acc <= FORCE_CAP,
        -4_000_000_000_000_000_000 <= addend <= 4_000_000_000_000_000_000,
    ensures
        -FORCE_CAP <= r <= FORCE_CAP,
{
    let c = clamp_i64(addend, -CONTRIB_CAP, CONTRIB_CAP);
    clamp_i64(acc + c, -FORCE_CAP, FORCE_CAP)
}

/// All positions lie inside the working range of the arithmetic.
pub open spec fn positions_in_range(ps: Seq<(i64, i64)>) -> bool {
    forall|i: int| 0 <= i < ps.len()
        ==> -2_000_000 <= (#[trigger] ps[i]).0 <= 2_000_000 && -2_000_000 <= ps[i].1 <= 2_000_000
}

/// The interval `keep_within_bounds` clamps an axis into.
pub open spec fn margin_hi(dim: i64) -> int {
    if dim - BOUNDS_MARGIN > BOUNDS_MARGIN {
        dim - BOUNDS_MARGIN
    } else {
        BOUNDS_MARGIN as int
    }
}

/// All positions lie within the margins of a `width` by `height` area.
pub open spec fn positions_within_margins(ps: Seq<(i64, i64)>, width: i64, height: i64) -> bool {
    forall|i: int| 0 <= i < ps.len()
        ==> BOUNDS_MARGIN <= (#[trigger] ps[i]).0 <= margin_hi(width)
            && BOUNDS_MARGIN <= ps[i].1 <= margin_hi(height)
}

/// Computes entity positions for a whole schema.
pub struct LayoutEngine {
    width: i64,
    height: i64,
}

impl LayoutEngine {
    /// An engine for a layout area of `width` by `height` grid units.
    pub fn new(width: i64, height: i64) -> (r: Self)
        requires
            0 <= width <= LAYOUT_LIMIT,
            0 <= height <= LAYOUT_LIMIT,
        ensures
            r.width() == width,
            r.height() == height,
            r.wf(),
    {
        Self { width, height }
    }

    /// Width of the layout area.
    pub closed spec fn width(&self) -> i64 {
        self.width
    }

    /// Height of the layout area.
    pub closed spec fn height(&self) -> i64 {
        self.height
    }

    /// The engine's area is within the accepted range.
    pub closed spec fn wf(&self) -> bool {
        0 <= self.width <= LAYOUT_LIMIT && 0 <= self.height <= LAYOUT_LIMIT
    }

    /// Lay out every entity of the schema: nothing to do for an empty
    /// schema, a single entity is centered, and two or more entities are
    /// relaxed force-directedly, which leaves every position inside the
    /// bounds margins.  Only positions change: names, columns and
    /// dimensions stay, and so does the relationship list.
    pub fn layout_entities(&self, schema: &mut Schema)
        requires
            self.wf(),
        ensures
            final(schema).entities@.len() == old(schema).entities@.len(),
            final(schema).relationships@ == old(schema).relationships@,
            forall|i: int| 0 <= i < old(schema).entities@.len()
                ==> entity_keeps_identity(old(schema).entities@[i], #[trigger] final(schema).entities@[i]),
            old(schema).entities@.len() == 1 ==> final(schema).entities@[0].position.x == self.width() / 2
                && final(schema).entities@[0].position.y == self.height() / 2,
            old(schema).entities@.len() >= 2 ==> forall|i: int|
                0 <= i < final(schema).entities@.len()
                ==> BOUNDS_MARGIN <= (#[trigger] final(schema).entities@[i]).position.x
                    <= margin_hi(self.width())
                    && BOUNDS_MARGIN <= final(schema).entities@[i].position.y
                    <= margin_hi(self.height()),
    {
        if schema.entities.len() == 0 {
            return;
        }
        if schema.entities.len() == 1 {
            self.layout_single_entity(schema);
        } else {
            self.layout_force_directed(schema);
        }
    }

    /// Center the only entity of the schema.
    fn layout_single_entity(&self, schema: &mut Schema)
        requires
            self.wf(),
            old(schema).entities@.len() >= 1,
        ensures
            final(schema).entities@.len() == old(schema).entities@.len(),
            final(schema).relationships@ == old(schema).relationships@,
            forall|i: int| 0 <= i < old(schema).entities@.len()
                ==> entity_keeps_identity(old(schema).entities@[i], #[trigger] final(schema).entities@[i]),
            final(schema).entities@[0].position.x == self.width() / 2,
            final(schema).entities@[0].position.y == self.height() / 2,
            forall|i: int| 1 <= i < old(schema).entities@.len()
                ==> #[trigger] final(schema).entities@[i] == old(schema).entities@[i],
    {
        let x = self.width / 2;
        let y = self.height / 2;
        schema.entities[0].position = Position { x, y };
    }

    /// Relax the layout with the fixed number of force passes.
    fn layout_force_directed(&self, schema: &mut Schema)
        requires
            self.wf(),
            old(schema).entities@.len() >= 2,
        ensures
            final(schema).entities@.len() == old(schema).entities@.len(),
            final(schema).relationships@ == old(schema).relationships@,
            forall|i: int| 0 <= i < old(schema).entities@.len()
                ==> entity_keeps_identity(old(schema).entities@[i], #[trigger] final(schema).entities@[i]),
            forall|i: int| 0 <= i < final(schema).entities@.len()
                ==> BOUNDS_MARGIN <= (#[trigger] final(schema).entities@[i]).position.x
                    <= margin_hi(self.width())
                    && BOUNDS_MARGIN <= final(schema).entities@[i].position.y
                    <= margin_hi(self.height()),
    {
        let n = schema.entities.len();
        let mut positions = self.initialize_positions(n);
        let edges = collect_edges(schema);

        let mut pass: usize = 0;
        while pass < ITERATIONS
            invariant
                self.wf(),
                positions@.len() == n,
                positions_in_range(positions@),
                forall|k: int| 0 <= k < edges@.len()
                    ==> (#[trigger] edges@[k]).0 < n && edges@[k].1 < n,
                pass <= ITERATIONS,
            decreases ITERATIONS - pass,
        {
            self.apply_forces(&mut positions, &edges);
            pass += 1;
        }
        self.keep_within_bounds(&mut positions);

        let mut i: usize = 0;
        while i < n
            invariant
                n == schema.entities@.len(),
                n == old(schema).entities@.len(),
                positions@.len() == n,
                positions_within_margins(positions@, self.width, self.height),
                schema.relationships@ == old(schema).relationships@,
                0 <= i <= n,
                forall|k: int| 0 <= k < n
                    ==> entity_keeps_identity(old(schema).entities@[k], #[trigger] schema.entities@[k]),
                forall|k: int| 0 <= k < i
                    ==> BOUNDS_MARGIN <= (#[trigger] schema.entities@[k]).position.x
                        <= margin_hi(self.width)
                        && BOUNDS_MARGIN <= schema.entities@[k].position.y <= margin_hi(self.height),
            decreases n - i,
        {
            let p = positions[i];
            schema.entities[i].position = Position { x: p.0, y: p.1 };
            i += 1;
        }
    }

    /// Starting positions: entities evenly spaced along a ring around
    /// the center of the layout area.
    fn initialize_positions(&self, n: usize) -> (ps: Vec<(i64, i64)>)
        requires
            self.wf(),
            n >= 1,
        ensures
            ps@.len() == n,
            forall|i: int| 0 <= i < ps@.len()
                ==> 0 <= (#[trigger] ps@[i]).0 <= LAYOUT_LIMIT && 0 <= ps@[i].1 <= LAYOUT_LIMIT,
            positions_in_range(ps@),
    {
        let smaller = if self.width < self.height { self.width } else { self.height };
        let quarter = smaller / 4;
        let radius = if quarter < 200 { quarter } else { 200 };
        let cx = self.width / 2;
        let cy = self.height / 2;
        proof {
            assert(0 <= radius <= self.width / 4 && radius <= 200);
            assert(cx - radius >= 0);
            assert(cy - radius >= 0);
        }

        let mut ps: Vec<(i64, i64)> = Vec::new();
        let mut i: usize = 0;
        while i < n
            invariant
                self.wf(),
                0 <= radius <= 200,
                cx == self.width() / 2,
                cy == self.height() / 2,
                cx - radius >= 0,
                cy - radius >= 0,
                cx + radius <= LAYOUT_LIMIT,
                cy + radius <= LAYOUT_LIMIT,
                0 <= i <= n,
                ps@.len() == i,
                forall|k: int| 0 <= k < ps@.len()
                    ==> 0 <= (#[trigger] ps@[k]).0 <= LAYOUT_LIMIT && 0 <= ps@[k].1 <= LAYOUT_LIMIT,
            decreases n - i,
        {
            let (dx, dy) = ring_offset(i, n, radius);
            ps.push((cx + dx, cy + dy));
            i += 1;
        }
        ps
    }

    /// One relaxation pass: pairwise repulsion, spring attraction along
    /// the edges, then damped and clamped movement, then bounds
    /// clamping.
    fn apply_forces(&self, positions: &mut Vec<(i64, i64)>, edges: &Vec<(usize, usize)>)
        requires
            self.wf(),
            positions_in_range(old(positions)@),
            forall|k: int| 0 <= k < edges@.len()
                ==> (#[trigger] edges@[k]).0 < old(positions)@.len()
                    && edges@[k].1 < old(positions)@.len(),
        ensures
            final(positions)@.len() == old(positions)@.len(),
            positions_in_range(final(positions)@),
    {
        let n = positions.len();
        let mut forces: Vec<(i64, i64)> = Vec::new();
        let mut i: usize = 0;
        while i < n
            invariant
                0 <= i <= n,
                forces@.len() == i,
                forall|k: int| 0 <= k < forces@.len()
                    ==> (#[trigger] forces@[k]).0 == 0i64 && forces@[k].1 == 0i64,
            decreases n - i,
        {
            forces.push((0, 0));
            i += 1;
        }

        self.apply_repulsion_forces(positions, &mut forces);
        self.apply_attraction_forces(positions, &mut forces, edges);
        self.apply_forces_to_positions(positions, &forces);
        self.keep_within_bounds(positions);
    }

    /// Accumulate the repulsive force of every entity pair.
    fn apply_repulsion_forces(&self, positions: &Vec<(i64, i64)>, forces: &mut Vec<(i64, i64)>)
        requires
            positions_in_range(positions@),
            old(forces)@.len() == positions@.len(),
            forall|k: int| 0 <= k < old(forces)@.len()
                ==> -FORCE_CAP <= (#[trigger] old(forces)@[k]).0 <= FORCE_CAP
                    && -FORCE_CAP <= old(forces)@[k].1 <= FORCE_CAP,
        ensures
            final(forces)@.len() == old(forces)@.len(),
            forall|k: int| 0 <= k < final(forces)@.len()
                ==> -FORCE_CAP <= (#[trigger] final(forces)@[k]).0 <= FORCE_CAP
                    && -FORCE_CAP <= final(forces)@[k].1 <= FORCE_CAP,
    {
        let n = positions.len();
        let mut i: usize = 0;
        while i < n
            invariant
                positions_in_range(positions@),
                n == positions@.len(),
                forces@.len() == n,
                0 <= i <= n,
                forall|k: int| 0 <= k < forces@.len()
                    ==> -FORCE_CAP <= (#[trigger] forces@[k]).0 <= FORCE_CAP
                        && -FORCE_CAP <= forces@[k].1 <= FORCE_CAP,
            decreases n - i,
        {
            let mut j: usize = 0;
            while j < n
                invariant
                    positions_in_range(positions@),
                    n == positions@.len(),
                    forces@.len() == n,
                    0 <= i < n,
                    0 <= j <= n,
                    forall|k: int| 0 <= k < forces@.len()
                        ==> -FORCE_CAP <= (#[trigger] forces@[k]).0 <= FORCE_CAP
                            && -FORCE_CAP <= forces@[k].1 <= FORCE_CAP,
                decreases n - j,
            {
                if j != i {
                    let (ax, ay) = positions[i];
                    let (bx, by) = positions[j];
                    let d = distance_of(ax, ay, bx, by);
                    let fx = repulsion_component(ax - bx, d);
                    let fy = repulsion_component(ay - by, d);
                    let cur = forces[i];
                    forces[i] = (accumulate(cur.0, fx), accumulate(cur.1, fy));
                }
                j += 1;
            }
            i += 1;
        }
    }

    /// Accumulate the spring force of every relationship edge, pulling
    /// both of its entities towards the resting distance.
    fn apply_attraction_forces(
        &self,
        positions: &Vec<(i64, i64)>,
        forces: &mut Vec<(i64, i64)>,
        edges: &Vec<(usize, usize)>,
    )
        requires
            positions_in_range(positions@),
            old(forces)@.len() == positions@.len(),
            forall|k: int| 0 <= k < edges@.len()
                ==> (#[trigger] edges@[k]).0 < positions@.len() && edges@[k].1 < positions@.len(),
            forall|k: int| 0 <= k < old(forces)@.len()
                ==> -FORCE_CAP <= (#[trigger] old(forces)@[k]).0 <= FORCE_CAP
                    && -FORCE_CAP <= old(forces)@[k].1 <= FORCE_CAP,
        ensures
            final(forces)@.len() == old(forces)@.len(),
            forall|k: int| 0 <= k < final(forces)@.len()
                ==> -FORCE_CAP <= (#[trigger] final(forces)@[k]).0 <= FORCE_CAP
                    && -FORCE_CAP <= final(forces)@[k].1 <= FORCE_CAP,
    {
        let m = edges.len();
        let mut e: usize = 0;
        while e < m
            invariant
                positions_in_range(positions@),
                forces@.len() == positions@.len(),
                m == edges@.len(),
                forall|k: int| 0 <= k < edges@.len()
                    ==> (#[trigger] edges@[k]).0 < positions@.len()
                        && edges@[k].1 < positions@.len(),
                0 <= e <= m,
                forall|k: int| 0 <= k < forces@.len()
                    ==> -FORCE_CAP <= (#[trigger] forces@[k]).0 <= FORCE_CAP
                        && -FORCE_CAP <= forces@[k].1 <= FORCE_CAP,
            decreases m - e,
        {
            let (from, to) = edges[e];
            let (ax, ay) = positions[from];
            let (bx, by) = positions[to];
            let d = distance_of(ax, ay, bx, by);
            let fx = attraction_component(bx - ax, d);
            let fy = attraction_component(by - ay, d);
            let cur_from = forces[from];
            forces[from] = (accumulate(cur_from.0, fx), accumulate(cur_from.1, fy));
            let cur_to = forces[to];
            forces[to] = (accumulate(cur_to.0, -fx), accumulate(cur_to.1, -fy));
            e += 1;
        }
    }

    /// Convert net forces to damped velocities, clamp their magnitude,
    /// and move every position.
    fn apply_forces_to_positions(&self, positions: &mut Vec<(i64, i64)>, forces: &Vec<(i64, i64)>)
        requires
            positions_in_range(old(positions)@),
            forces@.len() == old(positions)@.len(),
            forall|k: int| 0 <= k < forces@.len()
                ==> -FORCE_CAP <= (#[trigger] forces@[k]).0 <= FORCE_CAP
                    && -FORCE_CAP <= forces@[k].1 <= FORCE_CAP,
        ensures
            final(positions)@.len() == old(positions)@.len(),
            positions_in_range(final(positions)@),
    {
        let n = positions.len();
        let mut i: usize = 0;
        while i < n
            invariant
                n == positions@.len(),
                forces@.len() == n,
                forall|k: int| 0 <= k < forces@.len()
                    ==> -FORCE_CAP <= (#[trigger] forces@[k]).0 <= FORCE_CAP
                        && -FORCE_CAP <= forces@[k].1 <= FORCE_CAP,
                0 <= i <= n,
                positions_in_range(positions@),
            decreases n - i,
        {
            let (fx, fy) = forces[i];
            let (mx, my) = velocity_of(fx, fy);
            let p = positions[i];
            let nx = clamp_i64(p.0 + mx, -2_000_000, 2_000_000);
            let ny = clamp_i64(p.1 + my, -2_000_000, 2_000_000);
            positions[i] = (nx, ny);
            i += 1;
        }
    }

    /// Clamp every position into the margins of the layout area.
    fn keep_within_bounds(&self, positions: &mut Vec<(i64, i64)>)
        requires
            self.wf(),
            positions_in_range(old(positions)@),
        ensures
            final(positions)@.len() == old(positions)@.len(),
            forall|k: int| 0 <= k < old(positions)@.len()
                ==> (#[trigger] final(positions)@[k]).0
                    == clamp_val(old(positions)@[k].0 as int, BOUNDS_MARGIN as int, margin_hi(self.width()))
                    && final(positions)@[k].1
                    == clamp_val(old(positions)@[k].1 as int, BOUNDS_MARGIN as int, margin_hi(self.height())),
            positions_within_margins(final(positions)@, self.width(), self.height()),
            positions_in_range(final(positions)@),
    {
        let hi_x = if self.width - BOUNDS_MARGIN > BOUNDS_MARGIN {
            self.width - BOUNDS_MARGIN
        } else {
            BOUNDS_MARGIN
        };
        let hi_y = if self.height - BOUNDS_MARGIN > BOUNDS_MARGIN {
            self.height - BOUNDS_MARGIN
        } else {
            BOUNDS_MARGIN
        };
        let n = positions.len();
        let mut i: usize = 0;
        while i < n
            invariant
                self.wf(),
                n == positions@.len(),
                hi_x == margin_hi(self.width()),
                hi_y == margin_hi(self.height()),
                BOUNDS_MARGIN <= hi_x <= LAYOUT_LIMIT,
                BOUNDS_MARGIN <= hi_y <= LAYOUT_LIMIT,
                0 <= i <= n,
                positions_in_range(positions@),
                forall|k: int| i <= k < n ==> #[trigger] positions@[k] == old(positions)@[k],
                forall|k: int| 0 <= k < i
                    ==> (#[trigger] positions@[k]).0
                        == clamp_val(old(positions)@[k].0 as int, BOUNDS_MARGIN as int, hi_x as int)
                        && positions@[k].1
                        == clamp_val(old(positions)@[k].1 as int, BOUNDS_MARGIN as int, hi_y as int),
                forall|k: int| 0 <= k < i
                    ==> BOUNDS_MARGIN <= (#[trigger] positions@[k]).0 <= hi_x
                        && BOUNDS_MARGIN <= positions@[k].1 <= hi_y,
            decreases n - i,
        {
            let p = positions[i];
            positions[i] = (clamp_i64(p.0, BOUNDS_MARGIN, hi_x), clamp_i64(p.1, BOUNDS_MARGIN, hi_y));
            i += 1;
        }
    }
}

/// Entity `b` is entity `a` with at most its position changed.
pub open spec fn entity_keeps_identity(a: Entity, b: Entity) -> bool {
    &&& b.name@ == a.name@
    &&& b.columns@ == a.columns@
    &&& b.dimensions == a.dimensions
}

/// Damped, magnitude-clamped velocity of a net force, in whole grid
/// units per pass.
fn velocity_of(fx: i64, fy: i64) -> (v: (i64, i64))
    requires
        -FORCE_CAP <= fx <= FORCE_CAP,
        -FORCE_CAP <= fy <= FORCE_CAP,
    ensures
        -10 <= v.0 <= 10,
        -10 <= v.1 <= 10,
{
    // Damping, then a cap on each component so the magnitude fits u64.
    let vx = clamp_i64(fx / 10, -1_000_000, 1_000_000);
    let vy = clamp_i64(fy / 10, -1_000_000, 1_000_000);
    let ax = abs_u64(vx);
    let ay = abs_u64(vy);
    proof {
        assert(ax * ax <= 1_000_000_000_000) by (nonlinear_arith)
            requires
                ax <= 1_000_000u64,
        ;
        assert(ay * ay <= 1_000_000_000_000) by (nonlinear_arith)
            requires
                ay <= 1_000_000u64,
        ;
    }
    let m2 = ax * ax + ay * ay;
    let mag = isqrt_u64(m2);
    proof {
        assert(ax <= mag) by (nonlinear_arith)
            requires
                ax * ax <= m2,
                m2 < (mag + 1) * (mag + 1),
                0 <= mag,
                0 <= ax,
        ;
        assert(ay <= mag) by (nonlinear_arith)
            requires
                ay * ay <= m2,
                m2 < (mag + 1) * (mag + 1),
                0 <= mag,
                0 <= ay,
        ;
    }
    let (sx, sy) = if mag > 10_000 {
        let qx = ax * 10_000 / mag;
        let qy = ay * 10_000 / mag;
        proof {
            assert(ax * 10_000 <= mag * 10_000) by (nonlinear_arith)
                requires
                    ax <= mag,
            ;
            assert(ay * 10_000 <= mag * 10_000) by (nonlinear_arith)
                requires
                    ay <= mag,
            ;
            vstd::arithmetic::div_mod::lemma_div_by_multiple(10_000int, mag as int);
            vstd::arithmetic::div_mod::lemma_div_is_ordered(
                ax as int * 10_000,
                mag as int * 10_000,
                mag as int,
            );
            vstd::arithmetic::div_mod::lemma_div_is_ordered(
                ay as int * 10_000,
                mag as int * 10_000,
                mag as int,
            );
            vstd::arithmetic::div_mod::lemma_div_pos_is_pos(ax as int * 10_000, mag as int);
            vstd::arithmetic::div_mod::lemma_div_pos_is_pos(ay as int * 10_000, mag as int);
        }
        (qx, qy)
    } else {
        (ax, ay)
    };
    // Back to whole units, signed.
    let ux = (sx / 1000) as i64;
    let uy = (sy / 1000) as i64;
    proof {
        vstd::arithmetic::div_mod::lemma_div_nonincreasing(sx as int, 1000);
        vstd::arithmetic::div_mod::lemma_div_pos_is_pos(sx as int, 1000);
        vstd::arithmetic::div_mod::lemma_div_nonincreasing(sy as int, 1000);
        vstd::arithmetic::div_mod::lemma_div_pos_is_pos(sy as int, 1000);
    }
    let rx = if vx < 0 { -ux } else { ux };
    let ry = if vy < 0 { -uy } else { uy };
    (rx, ry)
}

/// The offset from the ring's center of the `i`-th of `n` entities: the
/// ring is walked as a square of the given radius, so offsets stay
/// within the radius on both axes.
fn ring_offset(i: usize, n: usize, radius: i64) -> (o: (i64, i64))
    requires
        n >= 1,
        i < n,
        0 <= radius <= 200,
    ensures
        -radius <= o.0 <= radius,
        -radius <= o.1 <= radius,
{
    if radius == 0 {
        return (0, 0);
    }
    let perimeter: u64 = 8 * (radius as u64);
    let small = (i as u64) <= 1_000_000_000_000;
    proof {
        if small {
            assert((i as u64) * perimeter <= 1_600_000_000_000_000) by (nonlinear_arith)
                requires
                    perimeter <= 1600u64,
                    (i as u64) <= 1_000_000_000_000u64,
            ;
        }
    }
    let t64: u64 = if small { (i as u64) * perimeter / (n as u64) } else { 0 };
    proof {
        if small {
            assert((i as u64) * perimeter < (n as u64) * perimeter) by (nonlinear_arith)
                requires
                    (i as u64) < (n as u64),
                    perimeter >= 1u64,
            ;
            vstd::arithmetic::div_mod::lemma_multiply_divide_lt(
                (i as u64) * perimeter as int,
                n as int,
                perimeter as int,
            );
        }
    }
    let t: i64 = (if t64 < perimeter { t64 } else { 0 }) as i64;
    let r = radius;
    let side = 2 * r;
    if t < side {
        (t - r, -r)
    } else if t < 2 * side {
        (r, (t - side) - r)
    } else if t < 3 * side {
        (r - (t - 2 * side), r)
    } else {
        (-r, r - (t - 3 * side))
    }
}

/// Edges of the schema as index pairs into the entity list; edges whose
/// tables are missing are skipped.
fn collect_edges(schema: &Schema) -> (edges: Vec<(usize, usize)>)
    ensures
        forall|k: int| 0 <= k < edges@.len()
            ==> (#[trigger] edges@[k]).0 < schema.entities@.len()
                && edges@[k].1 < schema.entities@.len(),
{
    let mut edges: Vec<(usize, usize)> = Vec::new();
    let m = schema.relationships.len();
    let mut e: usize = 0;
    while e < m
        invariant
            m == schema.relationships@.len(),
            0 <= e <= m,
            forall|k: int| 0 <= k < edges@.len()
                ==> (#[trigger] edges@[k]).0 < schema.entities@.len()
                    && edges@[k].1 < schema.entities@.len(),
        decreases m - e,
    {
        let from = index_of_entity(schema, &schema.relationships[e].from_table);
        let to = index_of_entity(schema, &schema.relationships[e].to_table);
        match (from, to) {
            (Some(a), Some(b)) => {
                edges.push((a, b));
            }
            _ => {}
        }
        e += 1;
    }
    edges
}

/// Index of the entity named `name`, if any.
fn index_of_entity(schema: &Schema, name: &String) -> (r: Option<usize>)
    ensures
        r matches Some(i) ==> i < schema.entities@.len(),
{
    let n = schema.entities.len();
    let mut i: usize = 0;
    while i < n
        invariant
            n == schema.entities@.len(),
            0 <= i <= n,
        decreases n - i,
    {
        if schema.entities[i].name == *name {
            return Some(i);
        }
        i += 1;
    }
    None
}

} // verus!
