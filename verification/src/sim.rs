//! The simulation instance: the particle arena, the constraint list, the
//! per-tick orchestration, and the interactive nearest-segment query.
use vstd::prelude::*;

use crate::constraint::{keeps_frame, lemma_satisfy_frame, spec_satisfy, Constraint};
use crate::geom::{dist_sq, isqrt_u64, lemma_sqrt_floor_square, sqrt_floor, within, Vec2};
use crate::particle::{lemma_pinned_unmoved, spec_particle_step, Particle};
use crate::{ACC_LIMIT, DT_LIMIT, POS_LIMIT, QUERY_LIMIT, REST_LIMIT, SAT_LIMIT};

verus! {

pub struct Simulation {
    pub particles: Vec<Particle>,
    pub constraints: Vec<Constraint>,
}

/// A constraint is well formed for an arena of `n` particles: its
/// endpoints are two distinct valid indices and its rest length is
/// positive and bounded.
pub open spec fn constraint_wf(c: Constraint, n: nat) -> bool {
    &&& c.p1 < n
    &&& c.p2 < n
    &&& c.p1 != c.p2
    &&& 1 <= c.initial_length <= REST_LIMIT
}

/// A particle at rest between ticks: bounded position and history, and
/// no acceleration left over.
pub open spec fn particle_wf(p: Particle) -> bool {
    &&& within(p.position, POS_LIMIT)
    &&& within(p.previous_position, POS_LIMIT)
    &&& p.acceleration == (Vec2 { x: 0, y: 0 })
}

impl Simulation {
    pub open spec fn wf(self) -> bool {
        &&& forall|i: int| 0 <= i < self.particles@.len() ==> particle_wf(#[trigger] self.particles@[i])
        &&& forall|k: int|
            0 <= k < self.constraints@.len() ==> constraint_wf(
                #[trigger] self.constraints@[k],
                self.particles@.len(),
            )
    }

    pub fn particle_count(&self) -> (n: usize)
        ensures
            n == self.particles@.len(),
    {
        self.particles.len()
    }

    pub fn constraint_count(&self) -> (n: usize)
        ensures
            n == self.constraints@.len(),
    {
        self.constraints.len()
    }

    /// Read accessor for the renderer: a particle's current position.
    pub fn particle_position(&self, i: usize) -> (v: Vec2)
        requires
            i < self.particles@.len(),
        ensures
            v == self.particles@[i as int].position,
    {
        self.particles[i].position
    }

    /// Read accessor for the renderer: whether a constraint still acts.
    pub fn constraint_active(&self, k: usize) -> (a: bool)
        requires
            k < self.constraints@.len(),
        ensures
            a == self.constraints@[k as int].active,
    {
        self.constraints[k].active
    }

    /// Read accessor for the renderer: the two endpoint positions of a
    /// constraint's segment.
    pub fn constraint_endpoints(&self, k: usize) -> (r: (Vec2, Vec2))
        requires
            k < self.constraints@.len(),
            constraint_wf(self.constraints@[k as int], self.particles@.len()),
        ensures
            r.0 == self.particles@[self.constraints@[k as int].p1 as int].position,
            r.1 == self.particles@[self.constraints@[k as int].p2 as int].position,
    {
        let c: Constraint = self.constraints[k];
        (self.particles[c.p1].position, self.particles[c.p2].position)
    }
}

/// Every particle after its share of one tick: force, integration,
/// clamping, each independent of the others.
pub open spec fn spec_step_all(
    ps: Seq<Particle>,
    gravity: Vec2,
    time_step: i64,
    width: i64,
    height: i64,
) -> Seq<Particle> {
    Seq::new(ps.len(), |i: int| spec_particle_step(ps[i], gravity, time_step, width, height))
}

/// The arena after the first `k` constraints of one relaxation sweep,
/// in insertion order.
pub open spec fn spec_pass_prefix(ps: Seq<Particle>, cs: Seq<Constraint>, k: nat) -> Seq<Particle>
    decreases k,
{
    if k == 0 {
        ps
    } else {
        spec_satisfy(spec_pass_prefix(ps, cs, (k - 1) as nat), cs[k - 1])
    }
}

/// The arena after `n` full relaxation sweeps.
pub open spec fn spec_relax(ps: Seq<Particle>, cs: Seq<Constraint>, n: nat) -> Seq<Particle>
    decreases n,
{
    if n == 0 {
        ps
    } else {
        spec_pass_prefix(spec_relax(ps, cs, (n - 1) as nat), cs, cs.len())
    }
}

pub proof fn lemma_pass_prefix_frame(ps: Seq<Particle>, cs: Seq<Constraint>, k: nat)
    ensures
        spec_pass_prefix(ps, cs, k).len() == ps.len(),
        forall|i: int| #![trigger spec_pass_prefix(ps, cs, k)[i]]
            0 <= i < ps.len() ==> keeps_frame(ps[i], spec_pass_prefix(ps, cs, k)[i]),
    decreases k,
{
    if k > 0 {
        let mid = spec_pass_prefix(ps, cs, (k - 1) as nat);
        lemma_pass_prefix_frame(ps, cs, (k - 1) as nat);
        lemma_satisfy_frame(mid, cs[k - 1]);
        assert forall|i: int|
            0 <= i < ps.len() implies keeps_frame(ps[i], spec_pass_prefix(ps, cs, k)[i]) by {
            assert(keeps_frame(ps[i], mid[i]));
            assert(keeps_frame(mid[i], spec_satisfy(mid, cs[k - 1])[i]));
        }
    }
}

pub proof fn lemma_relax_frame(ps: Seq<Particle>, cs: Seq<Constraint>, n: nat)
    ensures
        spec_relax(ps, cs, n).len() == ps.len(),
        forall|i: int| #![trigger spec_relax(ps, cs, n)[i]]
            0 <= i < ps.len() ==> keeps_frame(ps[i], spec_relax(ps, cs, n)[i]),
    decreases n,
{
    if n > 0 {
        let mid = spec_relax(ps, cs, (n - 1) as nat);
        lemma_relax_frame(ps, cs, (n - 1) as nat);
        lemma_pass_prefix_frame(mid, cs, cs.len());
        assert forall|i: int|
            0 <= i < ps.len() implies keeps_frame(ps[i], spec_relax(ps, cs, n)[i]) by {
            assert(keeps_frame(ps[i], mid[i]));
            assert(keeps_frame(mid[i], spec_pass_prefix(mid, cs, cs.len())[i]));
        }
    }
}

/// One integration step keeps a particle well formed, and a pinned
/// particle that sits inside the bounds is left exactly where it was.
pub proof fn lemma_step_keeps_wf(
    p: Particle,
    gravity: Vec2,
    time_step: i64,
    width: i64,
    height: i64,
)
    requires
        particle_wf(p),
        within(gravity, ACC_LIMIT),
        0 <= time_step <= DT_LIMIT,
        0 <= width <= SAT_LIMIT,
        0 <= height <= SAT_LIMIT,
    ensures
        particle_wf(spec_particle_step(p, gravity, time_step, width, height)),
        spec_particle_step(p, gravity, time_step, width, height).is_pinned == p.is_pinned,
        p.is_pinned && 0 <= p.position.x <= width && 0 <= p.position.y <= height
            ==> spec_particle_step(p, gravity, time_step, width, height) == p,
{
    if p.is_pinned {
        lemma_pinned_unmoved(p, gravity, time_step);
    }
}

/// Exact squared distance from the point `(px, py)` to the segment from
/// `(ax, ay)` to `(bx, by)`, rounded down: the point is projected onto
/// the segment's line, the projection parameter is clamped to the
/// segment, and in the interior case the exact rational value
/// `(|ap|^2 * |ab|^2 - dot^2) / |ab|^2` is divided rounding down. A
/// degenerate segment yields the distance to its single point.
pub open spec fn seg_dist_sq(px: int, py: int, ax: int, ay: int, bx: int, by: int) -> int {
    let abx: int = bx - ax;
    let aby: int = by - ay;
    let apx: int = px - ax;
    let apy: int = py - ay;
    let bpx: int = px - bx;
    let bpy: int = py - by;
    let den: int = abx * abx + aby * aby;
    let dot: int = abx * apx + aby * apy;
    if den == 0 {
        apx * apx + apy * apy
    } else if dot <= 0 {
        apx * apx + apy * apy
    } else if dot >= den {
        bpx * bpx + bpy * bpy
    } else {
        ((apx * apx + apy * apy) * den - dot * dot) / den
    }
}

pub proof fn lemma_cauchy_schwarz(ux: int, uy: int, vx: int, vy: int)
    ensures
        (ux * vx + uy * vy) * (ux * vx + uy * vy) <= (ux * ux + uy * uy) * (vx * vx + vy * vy),
{
    assert((ux * ux) * (vx * vx) == (ux * vx) * (ux * vx)) by (nonlinear_arith);
    assert((ux * ux) * (vy * vy) == (ux * vy) * (ux * vy)) by (nonlinear_arith);
    assert((uy * uy) * (vx * vx) == (uy * vx) * (uy * vx)) by (nonlinear_arith);
    assert((uy * uy) * (vy * vy) == (uy * vy) * (uy * vy)) by (nonlinear_arith);
    assert((ux * vx) * (uy * vy) == (ux * vy) * (uy * vx)) by (nonlinear_arith);
    vstd::arithmetic::mul::lemma_mul_is_distributive_add(ux * ux, vx * vx, vy * vy);
    vstd::arithmetic::mul::lemma_mul_is_distributive_add(uy * uy, vx * vx, vy * vy);
    vstd::arithmetic::mul::lemma_mul_is_distributive_add_other_way(
        vx * vx + vy * vy,
        ux * ux,
        uy * uy,
    );
    assert((ux * vx + uy * vy) * (ux * vx + uy * vy) == (ux * vx) * (ux * vx) + 2 * ((ux * vx) * (uy
        * vy)) + (uy * vy) * (uy * vy)) by (nonlinear_arith);
    assert((ux * vy - uy * vx) * (ux * vy - uy * vx) == (ux * vy) * (ux * vy) - 2 * ((ux * vy) * (uy
        * vx)) + (uy * vx) * (uy * vx)) by (nonlinear_arith);
    assert((ux * vy - uy * vx) * (ux * vy - uy * vx) >= 0) by (nonlinear_arith);
}

/// A squared distance is never negative.
pub proof fn lemma_seg_dist_sq_nonneg(px: int, py: int, ax: int, ay: int, bx: int, by: int)
    ensures
        seg_dist_sq(px, py, ax, ay, bx, by) >= 0,
{
    let abx: int = bx - ax;
    let aby: int = by - ay;
    let apx: int = px - ax;
    let apy: int = py - ay;
    let bpx: int = px - bx;
    let bpy: int = py - by;
    let den: int = abx * abx + aby * aby;
    let dot: int = abx * apx + aby * apy;
    assert(apx * apx >= 0 && apy * apy >= 0 && bpx * bpx >= 0 && bpy * bpy >= 0 && abx * abx >= 0
        && aby * aby >= 0) by (nonlinear_arith);
    if den != 0 && dot > 0 && dot < den {
        lemma_cauchy_schwarz(abx, aby, apx, apy);
        let num: int = (apx * apx + apy * apy) * den - dot * dot;
        assert(num >= 0) by (nonlinear_arith)
            requires
                dot * dot <= (abx * abx + aby * aby) * (apx * apx + apy * apy),
                num == (apx * apx + apy * apy) * den - dot * dot,
                den == abx * abx + aby * aby,
        ;
        assert(num / den >= 0) by (nonlinear_arith)
            requires
                num >= 0,
                den > 0,
        ;
    }
}

/// The midpoint of a segment lies at distance zero from it.
pub proof fn lemma_midpoint_dist_zero(px: int, py: int, ax: int, ay: int, bx: int, by: int)
    requires
        2 * px == ax + bx,
        2 * py == ay + by,
    ensures
        seg_dist_sq(px, py, ax, ay, bx, by) == 0,
{
    let abx: int = bx - ax;
    let aby: int = by - ay;
    let apx: int = px - ax;
    let apy: int = py - ay;
    let den: int = abx * abx + aby * aby;
    let dot: int = abx * apx + aby * apy;
    assert(abx == 2 * apx && aby == 2 * apy);
    assert(den == 4 * (apx * apx + apy * apy) && dot == 2 * (apx * apx + apy * apy))
        by (nonlinear_arith)
        requires
            abx == 2 * apx,
            aby == 2 * apy,
            den == abx * abx + aby * aby,
            dot == abx * apx + aby * apy,
    ;
    assert(apx * apx + apy * apy >= 0) by (nonlinear_arith);
    if den == 0 {
        assert(apx * apx + apy * apy == 0);
    } else {
        assert(dot > 0 && dot < den);
        let ap2: int = apx * apx + apy * apy;
        assert(ap2 * den - dot * dot == 0) by (nonlinear_arith)
            requires
                den == 4 * ap2,
                dot == 2 * ap2,
        ;
        assert(0int / den == 0);
    }
}

/// Squared distance from a query point to the segment of constraint `k`.
pub open spec fn cons_dist_sq(s: Simulation, px: int, py: int, k: int) -> int {
    let c = s.constraints@[k];
    let a = s.particles@[c.p1 as int].position;
    let b = s.particles@[c.p2 as int].position;
    seg_dist_sq(px, py, a.x as int, a.y as int, b.x as int, b.y as int)
}

/// `j` names the hit the query reports: the first active constraint
/// whose segment attains the minimal squared distance to the point,
/// that minimum lying strictly inside the squared tolerance.
pub open spec fn is_hit(s: Simulation, px: int, py: int, tol: int, j: int) -> bool {
    &&& 0 <= j < s.constraints@.len()
    &&& s.constraints@[j].active
    &&& cons_dist_sq(s, px, py, j) < tol * tol
    &&& forall|k: int|
        0 <= k < s.constraints@.len() && (#[trigger] s.constraints@[k]).active ==> cons_dist_sq(
            s,
            px,
            py,
            k,
        ) >= cons_dist_sq(s, px, py, j)
    &&& forall|k: int|
        0 <= k < j && (#[trigger] s.constraints@[k]).active ==> cons_dist_sq(s, px, py, k)
            > cons_dist_sq(s, px, py, j)
}

/// At most one index can be the reported hit.
pub proof fn lemma_hit_unique(s: Simulation, px: int, py: int, tol: int, j1: int, j2: int)
    requires
        is_hit(s, px, py, tol, j1),
        is_hit(s, px, py, tol, j2),
    ensures
        j1 == j2,
{
    if j1 < j2 {
        assert(cons_dist_sq(s, px, py, j1) > cons_dist_sq(s, px, py, j2));
        assert(cons_dist_sq(s, px, py, j1) >= cons_dist_sq(s, px, py, j2));
        assert(cons_dist_sq(s, px, py, j2) >= cons_dist_sq(s, px, py, j1));
    }
    if j2 < j1 {
        assert(cons_dist_sq(s, px, py, j2) > cons_dist_sq(s, px, py, j1));
        assert(cons_dist_sq(s, px, py, j1) >= cons_dist_sq(s, px, py, j2));
    }
}

/// If some active segment passes through the query point itself, any
/// reported hit is also at distance zero.
pub proof fn lemma_hit_at_zero(s: Simulation, px: int, py: int, tol: int, j0: int, j: int)
    requires
        0 <= j0 < s.constraints@.len(),
        s.constraints@[j0].active,
        cons_dist_sq(s, px, py, j0) == 0,
        is_hit(s, px, py, tol, j),
    ensures
        cons_dist_sq(s, px, py, j) == 0,
{
    let c = s.constraints@[j];
    let a = s.particles@[c.p1 as int].position;
    let b = s.particles@[c.p2 as int].position;
    lemma_seg_dist_sq_nonneg(px, py, a.x as int, a.y as int, b.x as int, b.y as int);
}

/// Exact squared point-to-segment distance, rounded down, as an
/// executable function.
pub fn point_to_segment_distance_sq(px: i64, py: i64, x1: i64, y1: i64, x2: i64, y2: i64) -> (d:
    u64)
    requires
        -QUERY_LIMIT <= px <= QUERY_LIMIT,
        -QUERY_LIMIT <= py <= QUERY_LIMIT,
        -QUERY_LIMIT <= x1 <= QUERY_LIMIT,
        -QUERY_LIMIT <= y1 <= QUERY_LIMIT,
        -QUERY_LIMIT <= x2 <= QUERY_LIMIT,
        -QUERY_LIMIT <= y2 <= QUERY_LIMIT,
    ensures
        d == seg_dist_sq(px as int, py as int, x1 as int, y1 as int, x2 as int, y2 as int),
{
    let abx: i128 = x2 as i128 - x1 as i128;
    let aby: i128 = y2 as i128 - y1 as i128;
    let apx: i128 = px as i128 - x1 as i128;
    let apy: i128 = py as i128 - y1 as i128;
    let bpx: i128 = px as i128 - x2 as i128;
    let bpy: i128 = py as i128 - y2 as i128;
    proof {
        assert(0 <= abx * abx <= 4_000_000_000_000_000_000 && 0 <= aby * aby
            <= 4_000_000_000_000_000_000 && 0 <= apx * apx <= 4_000_000_000_000_000_000 && 0 <= apy
            * apy <= 4_000_000_000_000_000_000 && 0 <= bpx * bpx <= 4_000_000_000_000_000_000 && 0
            <= bpy * bpy <= 4_000_000_000_000_000_000 && -4_000_000_000_000_000_000 <= abx * apx
            <= 4_000_000_000_000_000_000 && -4_000_000_000_000_000_000 <= aby * apy
            <= 4_000_000_000_000_000_000) by (nonlinear_arith)
            requires
                -2_000_000_000 <= abx <= 2_000_000_000,
                -2_000_000_000 <= aby <= 2_000_000_000,
                -2_000_000_000 <= apx <= 2_000_000_000,
                -2_000_000_000 <= apy <= 2_000_000_000,
                -2_000_000_000 <= bpx <= 2_000_000_000,
                -2_000_000_000 <= bpy <= 2_000_000_000,
        ;
    }
    let den: i128 = abx * abx + aby * aby;
    let dot: i128 = abx * apx + aby * apy;
    let ap2: i128 = apx * apx + apy * apy;
    let bp2: i128 = bpx * bpx + bpy * bpy;
    let d2: i128 = if den == 0 {
        ap2
    } else if dot <= 0 {
        ap2
    } else if dot >= den {
        bp2
    } else {
        proof {
            lemma_cauchy_schwarz(abx as int, aby as int, apx as int, apy as int);
            assert(0 <= ap2 * den <= 64_000_000_000_000_000_000_000_000_000_000_000_000 && 0 <= dot
                * dot <= ap2 * den) by (nonlinear_arith)
                requires
                    0 <= ap2 <= 8_000_000_000_000_000_000,
                    0 <= den <= 8_000_000_000_000_000_000,
                    0 < dot < den,
                    dot * dot <= den * ap2,
            ;
        }
        let num: i128 = ap2 * den - dot * dot;
        let q: u128 = (num as u128) / (den as u128);
        proof {
            assert(q <= ap2) by (nonlinear_arith)
                requires
                    q == num / den,
                    0 <= num <= ap2 * den,
                    den >= 1,
                    ap2 >= 0,
            ;
        }
        q as i128
    };
    d2 as u64
}

/// The particle of the grid cell in row `r`, column `c`: at rest at its
/// lattice point, pinned exactly on the top row, from which the cloth
/// hangs.
pub open spec fn grid_particle(
    r: int,
    c: int,
    spacing: i64,
    origin_x: i64,
    origin_y: i64,
) -> Particle {
    Particle {
        position: Vec2 { x: (origin_x + c * spacing) as i64, y: (origin_y + r * spacing) as i64 },
        previous_position: Vec2 {
            x: (origin_x + c * spacing) as i64,
            y: (origin_y + r * spacing) as i64,
        },
        acceleration: Vec2 { x: 0, y: 0 },
        is_pinned: r == 0,
    }
}

/// The constraints cell `(r, c)` contributes: a horizontal link to the
/// right neighbour if one exists, then a vertical link to the neighbour
/// below if one exists.
pub open spec fn grid_cell_constraints(
    r: int,
    c: int,
    rows: int,
    cols: int,
    spacing: i64,
) -> Seq<Constraint> {
    let h: Seq<Constraint> = if c + 1 < cols {
        seq![
            Constraint {
                p1: (r * cols + c) as usize,
                p2: (r * cols + c + 1) as usize,
                initial_length: spacing,
                active: true,
            },
        ]
    } else {
        Seq::empty()
    };
    let v: Seq<Constraint> = if r + 1 < rows {
        seq![
            Constraint {
                p1: (r * cols + c) as usize,
                p2: ((r + 1) * cols + c) as usize,
                initial_length: spacing,
                active: true,
            },
        ]
    } else {
        Seq::empty()
    };
    h + v
}

/// All constraints of the grid cells before `(r, c)` in row-major
/// order; the whole grid is `grid_constraints_upto(rows, 0, ..)`.
pub open spec fn grid_constraints_upto(
    r: int,
    c: int,
    rows: int,
    cols: int,
    spacing: i64,
) -> Seq<Constraint>
    decreases r, c,
{
    if r <= 0 && c <= 0 {
        Seq::empty()
    } else if c <= 0 {
        grid_constraints_upto(r - 1, cols, rows, cols, spacing)
    } else {
        grid_constraints_upto(r, c - 1, rows, cols, spacing) + grid_cell_constraints(
            r,
            c - 1,
            rows,
            cols,
            spacing,
        )
    }
}

impl Simulation {
    /// Builds the rectangular lattice: `rows * cols` particles at rest,
    /// `spacing` apart from the origin offset, the top row pinned, and
    /// a horizontal plus a vertical constraint for every adjacent pair,
    /// in row-major cell order.
    pub fn new_grid(rows: usize, cols: usize, spacing: i64, origin_x: i64, origin_y: i64) -> (s:
        Simulation)
        requires
            1 <= rows,
            1 <= cols,
            rows * cols <= 1_000_000,
            1 <= spacing,
            0 <= origin_x,
            0 <= origin_y,
            origin_x + cols * spacing <= SAT_LIMIT,
            origin_y + rows * spacing <= SAT_LIMIT,
        ensures
            s.wf(),
            s.particles@.len() == rows * cols,
            s.constraints@ == grid_constraints_upto(
                rows as int,
                0,
                rows as int,
                cols as int,
                spacing,
            ),
            forall|r: int, c: int|
                0 <= r < rows && 0 <= c < cols ==> s.particles@[r * (cols as int) + c]
                    == grid_particle(r, c, spacing, origin_x, origin_y),
    {
        let mut particles: Vec<Particle> = Vec::new();
        let mut r: usize = 0;
        while r < rows
            invariant
                r <= rows,
                1 <= rows,
                1 <= cols,
                rows * cols <= 1_000_000,
                1 <= spacing,
                0 <= origin_x,
                0 <= origin_y,
                origin_x + cols * spacing <= SAT_LIMIT,
                origin_y + rows * spacing <= SAT_LIMIT,
                particles@.len() == r * cols,
                forall|r2: int, c2: int|
                    0 <= r2 < r && 0 <= c2 < cols ==> particles@[r2 * (cols as int) + c2]
                        == grid_particle(r2, c2, spacing, origin_x, origin_y),
            decreases rows - r,
        {
            let mut c: usize = 0;
            while c < cols
                invariant
                    c <= cols,
                    r < rows,
                    1 <= rows,
                    1 <= cols,
                    rows * cols <= 1_000_000,
                    1 <= spacing,
                    0 <= origin_x,
                    0 <= origin_y,
                    origin_x + cols * spacing <= SAT_LIMIT,
                    origin_y + rows * spacing <= SAT_LIMIT,
                    particles@.len() == r * cols + c,
                    forall|r2: int, c2: int|
                        0 <= r2 < r && 0 <= c2 < cols ==> particles@[r2 * (cols as int) + c2]
                            == grid_particle(r2, c2, spacing, origin_x, origin_y),
                    forall|c2: int|
                        0 <= c2 < c ==> particles@[(r as int) * (cols as int) + c2]
                            == grid_particle(r as int, c2, spacing, origin_x, origin_y),
                decreases cols - c,
            {
                proof {
                    assert(0 <= (c as int) * spacing && (c as int) * spacing + spacing <= (
                    cols as int) * spacing && 0 <= (r as int) * spacing && (r as int) * spacing
                        + spacing <= (rows as int) * spacing && (r as int) * (cols as int) + (
                    c as int) < (rows as int) * (cols as int) && (rows as int) <= (rows as int) * (
                    cols as int) && (cols as int) <= (rows as int) * (cols as int))
                        by (nonlinear_arith)
                        requires
                            0 <= c,
                            c < cols,
                            0 <= r,
                            r < rows,
                            1 <= spacing,
                            1 <= cols,
                            1 <= rows,
                    ;
                }
                let x: i64 = origin_x + (c as i64) * spacing;
                let y: i64 = origin_y + (r as i64) * spacing;
                particles.push(Particle::from_xy(x, y, r == 0));
                c = c + 1;
                proof {
                    assert forall|r2: int, c2: int|
                        0 <= r2 < r && 0 <= c2 < cols implies particles@[r2 * (cols as int) + c2]
                        == grid_particle(r2, c2, spacing, origin_x, origin_y) by {
                        assert(0 <= r2 * (cols as int) + c2 < (r as int) * (cols as int))
                            by (nonlinear_arith)
                            requires
                                0 <= r2,
                                r2 < r,
                                0 <= c2 < cols,
                                1 <= cols,
                        ;
                    }
                }
            }
            r = r + 1;
            proof {
                assert((r as int) * (cols as int) == (r - 1) * (cols as int) + (
                cols as int)) by (nonlinear_arith);
                assert forall|r2: int, c2: int|
                    0 <= r2 < r && 0 <= c2 < cols implies particles@[r2 * (cols as int) + c2]
                    == grid_particle(r2, c2, spacing, origin_x, origin_y) by {
                    if r2 == r - 1 {
                        assert(particles@[(r - 1) * (cols as int) + c2] == grid_particle(
                            r - 1,
                            c2,
                            spacing,
                            origin_x,
                            origin_y,
                        ));
                    }
                }
            }
        }
        proof {
            assert(particles@.len() == rows * cols);
        }
        let mut constraints: Vec<Constraint> = Vec::new();
        let mut r: usize = 0;
        while r < rows
            invariant
                r <= rows,
                1 <= rows,
                1 <= cols,
                rows * cols <= 1_000_000,
                1 <= spacing,
                0 <= origin_x,
                0 <= origin_y,
                origin_x + cols * spacing <= SAT_LIMIT,
                origin_y + rows * spacing <= SAT_LIMIT,
                particles@.len() == rows * cols,
                forall|r2: int, c2: int|
                    0 <= r2 < rows && 0 <= c2 < cols ==> particles@[r2 * (cols as int) + c2]
                        == grid_particle(r2, c2, spacing, origin_x, origin_y),
                constraints@ == grid_constraints_upto(
                    r as int,
                    0,
                    rows as int,
                    cols as int,
                    spacing,
                ),
                forall|k: int|
                    0 <= k < constraints@.len() ==> constraint_wf(
                        #[trigger] constraints@[k],
                        particles@.len(),
                    ),
            decreases rows - r,
        {
            let mut c: usize = 0;
            while c < cols
                invariant
                    c <= cols,
                    r < rows,
                    1 <= rows,
                    1 <= cols,
                    rows * cols <= 1_000_000,
                    1 <= spacing,
                    0 <= origin_x,
                    0 <= origin_y,
                    origin_x + cols * spacing <= SAT_LIMIT,
                    origin_y + rows * spacing <= SAT_LIMIT,
                    particles@.len() == rows * cols,
                    forall|r2: int, c2: int|
                        0 <= r2 < rows && 0 <= c2 < cols ==> particles@[r2 * (cols as int) + c2]
                            == grid_particle(r2, c2, spacing, origin_x, origin_y),
                    constraints@ == grid_constraints_upto(
                        r as int,
                        c as int,
                        rows as int,
                        cols as int,
                        spacing,
                    ),
                    forall|k: int|
                        0 <= k < constraints@.len() ==> constraint_wf(
                            #[trigger] constraints@[k],
                            particles@.len(),
                        ),
                decreases cols - c,
            {
                proof {
                    assert(0 <= (c as int) * spacing && (c as int) * spacing + spacing <= (
                    cols as int) * spacing && 0 <= (r as int) * spacing && (r as int) * spacing
                        + spacing <= (rows as int) * spacing && (r as int) * (cols as int) + (
                    c as int) < (rows as int) * (cols as int) && (r as int) * (cols as int) >= 0 && (
                    (r as int) + 1) * (cols as int) == (r as int) * (cols as int) + (cols as int)
                        && ((c as int) + 1) * spacing == (c as int) * spacing + spacing && ((
                    r as int) + 1) * spacing == (r as int) * spacing + spacing && spacing <= (
                    cols as int) * spacing && ((c as int) + 1 < cols ==> (r as int) * (cols as int)
                        + (c as int) + 1 < (rows as int) * (cols as int)) && ((r as int) + 1 < rows
                        ==> (r as int) * (cols as int) + (cols as int) + (c as int) < (rows as int)
                        * (cols as int)) && (rows as int) <= (rows as int) * (cols as int) && (
                    cols as int) <= (rows as int) * (cols as int)) by (nonlinear_arith)
                        requires
                            0 <= c,
                            c < cols,
                            0 <= r,
                            r < rows,
                            1 <= spacing,
                            1 <= cols,
                            1 <= rows,
                    ;
                    assert(0 < spacing * spacing && spacing * spacing <= 10_000_000_000_000_000)
                        by (nonlinear_arith)
                        requires
                            1 <= spacing <= 100_000_000,
                    ;
                    lemma_sqrt_floor_square(spacing as nat);
                }
                let idx: usize = r * cols + c;
                proof {
                    assert(particles@[(r as int) * (cols as int) + (c as int)] == grid_particle(
                        r as int,
                        c as int,
                        spacing,
                        origin_x,
                        origin_y,
                    ));
                }
                let ghost cell = grid_cell_constraints(
                    r as int,
                    c as int,
                    rows as int,
                    cols as int,
                    spacing,
                );
                if c + 1 < cols {
                    proof {
                        assert(particles@[(r as int) * (cols as int) + (c as int) + 1]
                            == grid_particle(r as int, (c as int) + 1, spacing, origin_x, origin_y));
                    }
                    proof {
                        let pa_ = particles@[idx as int].position;
                        let pb_ = particles@[idx as int + 1].position;
                        assert(pa_.x == origin_x + (c as int) * spacing && pa_.y == origin_y + (
                        r as int) * spacing);
                        assert(pb_.x == origin_x + ((c as int) + 1) * spacing && pb_.y == origin_y
                            + (r as int) * spacing);
                        assert(pb_.x - pa_.x == spacing && pb_.y - pa_.y == 0);
                        assert(dist_sq(pa_, pb_) == spacing * spacing);
                    }
                    let h: Constraint = Constraint::new(&particles, idx, idx + 1);
                    proof {
                        assert(h == cell[0]);
                    }
                    constraints.push(h);
                }
                if r + 1 < rows {
                    proof {
                        assert(particles@[((r as int) + 1) * (cols as int) + (c as int)]
                            == grid_particle(
                            (r as int) + 1,
                            c as int,
                            spacing,
                            origin_x,
                            origin_y,
                        ));
                    }
                    proof {
                        let pa_ = particles@[idx as int].position;
                        let pb_ = particles@[idx as int + cols].position;
                        assert(pa_.x == origin_x + (c as int) * spacing && pa_.y == origin_y + (
                        r as int) * spacing);
                        assert(pb_.x == origin_x + (c as int) * spacing && pb_.y == origin_y + ((
                        r as int) + 1) * spacing);
                        assert(pb_.x - pa_.x == 0 && pb_.y - pa_.y == spacing);
                        assert(dist_sq(pa_, pb_) == spacing * spacing);
                    }
                    let v: Constraint = Constraint::new(&particles, idx, idx + cols);
                    proof {
                        assert(v == cell[cell.len() - 1]);
                    }
                    constraints.push(v);
                }
                c = c + 1;
                proof {
                    assert(constraints@ =~= grid_constraints_upto(
                        r as int,
                        c as int,
                        rows as int,
                        cols as int,
                        spacing,
                    ));
                }
            }
            r = r + 1;
        }
        proof {
            assert forall|i: int|
                0 <= i < particles@.len() implies particle_wf(#[trigger] particles@[i]) by {
                let rr = i / (cols as int);
                let cc = i % (cols as int);
                vstd::arithmetic::div_mod::lemma_fundamental_div_mod(i, cols as int);
                vstd::arithmetic::div_mod::lemma_mod_bound(i, cols as int);
                assert(0 <= rr < rows && rr * (cols as int) + cc == i) by (nonlinear_arith)
                    requires
                        i == (cols as int) * rr + cc,
                        0 <= cc < cols,
                        0 <= i < (rows as int) * (cols as int),
                        1 <= cols,
                ;
                assert(particles@[i] == grid_particle(rr, cc, spacing, origin_x, origin_y));
                assert(0 <= origin_x + cc * spacing <= 100_000_000 && 0 <= origin_y + rr * spacing
                    <= 100_000_000) by (nonlinear_arith)
                    requires
                        0 <= cc < cols,
                        0 <= rr < rows,
                        1 <= spacing,
                        0 <= origin_x,
                        0 <= origin_y,
                        origin_x + (cols as int) * spacing <= 100_000_000,
                        origin_y + (rows as int) * spacing <= 100_000_000,
                ;
            }
        }
        Simulation { particles, constraints }
    }

    /// Advances the simulation by one fixed step: gravity is applied to
    /// every particle, each is Verlet-integrated and clamped to the
    /// viewport, and then `iterations` relaxation sweeps run over all
    /// constraints in insertion order. Pinned particles inside the
    /// bounds keep their exact position.
    pub fn tick(
        &mut self,
        gravity: Vec2,
        time_step: i64,
        width: i64,
        height: i64,
        iterations: usize,
    )
        requires
            old(self).wf(),
            within(gravity, ACC_LIMIT),
            0 <= time_step <= DT_LIMIT,
            0 <= width <= SAT_LIMIT,
            0 <= height <= SAT_LIMIT,
        ensures
            final(self).wf(),
            final(self).constraints@ == old(self).constraints@,
            final(self).particles@.len() == old(self).particles@.len(),
            final(self).particles@ == spec_relax(
                spec_step_all(old(self).particles@, gravity, time_step, width, height),
                old(self).constraints@,
                iterations as nat,
            ),
            forall|i: int|
                0 <= i < old(self).particles@.len() && old(self).particles@[i].is_pinned && 0 <= old(
                    self,
                ).particles@[i].position.x <= width && 0 <= old(self).particles@[i].position.y
                    <= height ==> final(self).particles@[i] == old(self).particles@[i],
    {
        let ghost orig: Seq<Particle> = self.particles@;
        let n: usize = self.particles.len();
        let mut i: usize = 0;
        while i < n
            invariant
                i <= n,
                n == self.particles@.len(),
                n == orig.len(),
                self.constraints@ == old(self).constraints@,
                within(gravity, ACC_LIMIT),
                0 <= time_step <= DT_LIMIT,
                0 <= width <= SAT_LIMIT,
                0 <= height <= SAT_LIMIT,
                forall|j: int| 0 <= j < n ==> particle_wf(#[trigger] orig[j]),
                forall|j: int|
                    0 <= j < i ==> self.particles@[j] == spec_particle_step(
                        #[trigger] orig[j],
                        gravity,
                        time_step,
                        width,
                        height,
                    ),
                forall|j: int| i <= j < n ==> self.particles@[j] == orig[j],
            decreases n - i,
        {
            let mut p: Particle = self.particles[i];
            proof {
                assert(self.particles@[i as int] == orig[i as int]);
                assert(particle_wf(p));
            }
            p.apply_force(gravity);
            p.update(time_step);
            p.constrain_to_bounds(width, height);
            self.particles[i] = p;
            i = i + 1;
        }
        let ghost base: Seq<Particle> = self.particles@;
        proof {
            assert(base =~= spec_step_all(orig, gravity, time_step, width, height));
        }
        let m: usize = self.constraints.len();
        let mut it: usize = 0;
        while it < iterations
            invariant
                it <= iterations,
                m == self.constraints@.len(),
                self.constraints@ == old(self).constraints@,
                self.particles@ == spec_relax(base, self.constraints@, it as nat),
                self.particles@.len() == base.len(),
            decreases iterations - it,
        {
            let ghost sweep_base: Seq<Particle> = self.particles@;
            let mut k: usize = 0;
            while k < m
                invariant
                    k <= m,
                    m == self.constraints@.len(),
                    self.constraints@ == old(self).constraints@,
                    self.particles@ == spec_pass_prefix(sweep_base, self.constraints@, k as nat),
                    sweep_base == spec_relax(base, self.constraints@, it as nat),
                    it < iterations,
                decreases m - k,
            {
                let con: Constraint = self.constraints[k];
                con.satisfy(&mut self.particles);
                k = k + 1;
                proof {
                    assert(self.particles@ == spec_pass_prefix(
                        sweep_base,
                        self.constraints@,
                        k as nat,
                    ));
                }
            }
            it = it + 1;
            proof {
                lemma_pass_prefix_frame(sweep_base, self.constraints@, m as nat);
                assert(self.particles@ == spec_relax(base, self.constraints@, it as nat));
            }
        }
        proof {
            let cs = self.constraints@;
            let done = spec_relax(base, cs, iterations as nat);
            assert(self.particles@ == done);
            lemma_relax_frame(base, cs, iterations as nat);
            assert forall|j: int| 0 <= j < n implies particle_wf(#[trigger] self.particles@[j]) by {
                lemma_step_keeps_wf(orig[j], gravity, time_step, width, height);
                assert(keeps_frame(base[j], done[j]));
            }
            assert forall|j: int|
                0 <= j < n && orig[j].is_pinned && 0 <= orig[j].position.x <= width
                    && 0 <= orig[j].position.y <= height implies self.particles@[j] == orig[j] by {
                lemma_step_keeps_wf(orig[j], gravity, time_step, width, height);
                assert(base[j] == orig[j]);
                assert(keeps_frame(base[j], done[j]));
                assert(done[j].position == orig[j].position);
                assert(done[j] == orig[j]);
            }
        }
    }

    /// Finds the active constraint whose segment is nearest to the query
    /// point, provided that minimum distance is strictly inside the
    /// tolerance; ties go to the earliest constraint in insertion order.
    /// Positions are only read; the caller deactivates the hit.
    pub fn find_nearest_constraint(&self, px: i64, py: i64, tolerance: i64) -> (r: Option<usize>)
        requires
            self.wf(),
            -QUERY_LIMIT <= px <= QUERY_LIMIT,
            -QUERY_LIMIT <= py <= QUERY_LIMIT,
            0 <= tolerance <= QUERY_LIMIT,
        ensures
            match r {
                Option::None => forall|k: int|
                    0 <= k < self.constraints@.len() && (#[trigger] self.constraints@[k]).active
                        ==> cons_dist_sq(*self, px as int, py as int, k) >= tolerance * tolerance,
                Option::Some(j) => is_hit(*self, px as int, py as int, tolerance as int, j as int),
            },
    {
        proof {
            assert(0 <= tolerance * tolerance <= 1_000_000_000_000_000_000) by (nonlinear_arith)
                requires
                    0 <= tolerance <= 1_000_000_000,
            ;
        }
        let tol2: u64 = (tolerance as u64) * (tolerance as u64);
        let mut best: Option<usize> = Option::None;
        let mut best_d: u64 = tol2;
        let m: usize = self.constraints.len();
        let mut k: usize = 0;
        while k < m
            invariant
                k <= m,
                m == self.constraints@.len(),
                self.wf(),
                -QUERY_LIMIT <= px <= QUERY_LIMIT,
                -QUERY_LIMIT <= py <= QUERY_LIMIT,
                0 <= tolerance <= QUERY_LIMIT,
                tol2 == tolerance * tolerance,
                best_d <= tol2,
                match best {
                    Option::None => best_d == tol2 && forall|i: int|
                        0 <= i < k && (#[trigger] self.constraints@[i]).active ==> cons_dist_sq(
                            *self,
                            px as int,
                            py as int,
                            i,
                        ) >= tol2,
                    Option::Some(j) => {
                        &&& (j as int) < k
                        &&& self.constraints@[j as int].active
                        &&& best_d == cons_dist_sq(*self, px as int, py as int, j as int)
                        &&& best_d < tol2
                        &&& forall|i: int|
                            0 <= i < k && (#[trigger] self.constraints@[i]).active
                                ==> cons_dist_sq(*self, px as int, py as int, i) >= best_d
                        &&& forall|i: int|
                            0 <= i < j && (#[trigger] self.constraints@[i]).active
                                ==> cons_dist_sq(*self, px as int, py as int, i) > best_d
                    },
                },
            decreases m - k,
        {
            let c: Constraint = self.constraints[k];
            if c.active {
                let a: Vec2 = self.particles[c.p1].position;
                let b: Vec2 = self.particles[c.p2].position;
                let d: u64 = point_to_segment_distance_sq(px, py, a.x, a.y, b.x, b.y);
                if d < best_d {
                    best_d = d;
                    best = Option::Some(k);
                }
            }
            k = k + 1;
        }
        best
    }

    /// The floor of the Euclidean distance from a point to a segment.
    pub fn point_to_segment_distance(px: i64, py: i64, x1: i64, y1: i64, x2: i64, y2: i64) -> (d:
        u64)
        requires
            -QUERY_LIMIT <= px <= QUERY_LIMIT,
            -QUERY_LIMIT <= py <= QUERY_LIMIT,
            -QUERY_LIMIT <= x1 <= QUERY_LIMIT,
            -QUERY_LIMIT <= y1 <= QUERY_LIMIT,
            -QUERY_LIMIT <= x2 <= QUERY_LIMIT,
            -QUERY_LIMIT <= y2 <= QUERY_LIMIT,
        ensures
            d == sqrt_floor(
                seg_dist_sq(px as int, py as int, x1 as int, y1 as int, x2 as int, y2 as int) as nat,
            ),
    {
        let d2: u64 = point_to_segment_distance_sq(px, py, x1, y1, x2, y2);
        isqrt_u64(d2)
    }

    /// Tears the cloth at a point: the nearest active constraint within
    /// the tolerance, if any, is deactivated; everything else, particles
    /// included, is left untouched.
    pub fn tear_cloth(&mut self, px: i64, py: i64, tolerance: i64)
        requires
            old(self).wf(),
            -QUERY_LIMIT <= px <= QUERY_LIMIT,
            -QUERY_LIMIT <= py <= QUERY_LIMIT,
            0 <= tolerance <= QUERY_LIMIT,
        ensures
            final(self).wf(),
            final(self).particles@ == old(self).particles@,
            final(self).constraints@.len() == old(self).constraints@.len(),
            (forall|k: int|
                0 <= k < old(self).constraints@.len()
                    && (#[trigger] old(self).constraints@[k]).active
                    ==> cons_dist_sq(*old(self), px as int, py as int, k) >= tolerance * tolerance)
                ==> final(self).constraints@ == old(self).constraints@,
            forall|j: int|
                is_hit(*old(self), px as int, py as int, tolerance as int, j)
                    ==> final(self).constraints@ == old(self).constraints@.update(
                    j,
                    (Constraint { active: false, ..old(self).constraints@[j] }),
                ),
            (exists|k: int|
                0 <= k < old(self).constraints@.len()
                    && (#[trigger] old(self).constraints@[k]).active
                    && cons_dist_sq(*old(self), px as int, py as int, k) < tolerance * tolerance)
                ==> exists|j: int| is_hit(*old(self), px as int, py as int, tolerance as int, j),
    {
        let r: Option<usize> = self.find_nearest_constraint(px, py, tolerance);
        match r {
            Option::None => {
                proof {
                    assert forall|j: int|
                        is_hit(*old(self), px as int, py as int, tolerance as int, j) implies false by {
                        assert(cons_dist_sq(*old(self), px as int, py as int, j) >= tolerance
                            * tolerance);
                    }
                }
            },
            Option::Some(j) => {
                let mut c: Constraint = self.constraints[j];
                c.deactivate();
                self.constraints[j] = c;
                proof {
                    let ghost o = *old(self);
                    assert(is_hit(o, px as int, py as int, tolerance as int, j as int));
                    assert forall|j2: int|
                        is_hit(o, px as int, py as int, tolerance as int, j2) implies self.constraints@ == o.constraints@.update(
                        j2,
                        (Constraint { active: false, ..o.constraints@[j2] }),
                    ) by {
                        lemma_hit_unique(o, px as int, py as int, tolerance as int, j as int, j2);
                        assert(self.constraints@ =~= o.constraints@.update(
                            j2,
                            (Constraint { active: false, ..o.constraints@[j2] }),
                        ));
                    }
                }
            },
        }
    }
}

} // verus!
