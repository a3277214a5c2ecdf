//! A bidirectional distance link between two particles of the arena,
//! named by their indices. `satisfy` performs one Gauss-Seidel relaxation
//! step: it halves the positional error along the segment, skipping
//! pinned endpoints. Deactivation is a soft delete: the link stays in the
//! collection but never acts again.
use vstd::prelude::*;

use crate::geom::{
    abs_i, dist_sq, div_trunc, div_trunc_i64, isqrt_u64, lemma_div_trunc_le, lemma_div_trunc_scale,
    lemma_sqrt_floor_is_root, lemma_sqrt_floor_square, sqrt_floor, within, Vec2,
};
use crate::particle::Particle;
use crate::{POS_LIMIT, REST_LIMIT, SAT_LIMIT};

verus! {

#[derive(Clone, Copy, PartialEq, Eq, Structural, Debug)]
pub struct Constraint {
    /// Index of the first endpoint in the particle arena.
    pub p1: usize,
    /// Index of the second endpoint in the particle arena.
    pub p2: usize,
    /// Distance between the endpoints when the link was made; the length
    /// the relaxation works toward.
    pub initial_length: i64,
    /// True until the link is torn; an inactive link never acts.
    pub active: bool,
}

/// Positions small enough for the relaxation arithmetic. A step on
/// larger values (far outside any sensible configuration) is skipped
/// rather than risked, in the same spirit as the degenerate-length
/// guard.
pub open spec fn sat_in_range(a: Vec2, b: Vec2, rest: i64) -> bool {
    &&& within(a, SAT_LIMIT)
    &&& within(b, SAT_LIMIT)
    &&& 0 <= rest <= REST_LIMIT
}

/// What one `satisfy` call leaves of the arena: both endpoints pulled
/// toward rest length by half the error each, a pinned endpoint left in
/// place, and the whole step a no-op when the link is inactive, an index
/// is out of range, the endpoints coincide (the degenerate guard), or a
/// position is outside `sat_in_range`.
pub open spec fn spec_satisfy(ps: Seq<Particle>, c: Constraint) -> Seq<Particle> {
    if !c.active || c.p1 >= ps.len() || c.p2 >= ps.len() || c.p1 == c.p2 {
        ps
    } else {
        let pa = ps[c.p1 as int];
        let pb = ps[c.p2 as int];
        if !sat_in_range(pa.position, pb.position, c.initial_length) {
            ps
        } else {
            let d2: int = dist_sq(pa.position, pb.position);
            if d2 == 0 {
                ps
            } else {
                let len: int = sqrt_floor(d2 as nat) as int;
                let cx: int = div_trunc(
                    (pb.position.x - pa.position.x) * (len - c.initial_length),
                    2 * len,
                );
                let cy: int = div_trunc(
                    (pb.position.y - pa.position.y) * (len - c.initial_length),
                    2 * len,
                );
                let pa2 = if pa.is_pinned {
                    pa
                } else {
                    Particle {
                        position: Vec2 {
                            x: (pa.position.x + cx) as i64,
                            y: (pa.position.y + cy) as i64,
                        },
                        ..pa
                    }
                };
                let pb2 = if pb.is_pinned {
                    pb
                } else {
                    Particle {
                        position: Vec2 {
                            x: (pb.position.x - cx) as i64,
                            y: (pb.position.y - cy) as i64,
                        },
                        ..pb
                    }
                };
                ps.update(c.p1 as int, pa2).update(c.p2 as int, pb2)
            }
        }
    }
}

/// Bounds on the relaxation arithmetic: the current length is below
/// 300 million, each delta coordinate is at most the length, the error
/// products stay far inside `i64`, and each correction coordinate is at
/// most 350 million.
pub proof fn lemma_correction_bounds(a: Vec2, b: Vec2, rest: i64)
    requires
        sat_in_range(a, b, rest),
        dist_sq(a, b) > 0,
    ensures
        ({
            let d2: int = dist_sq(a, b);
            let len: int = sqrt_floor(d2 as nat) as int;
            &&& 1 <= len < 300_000_000
            &&& -len <= b.x - a.x <= len
            &&& -len <= b.y - a.y <= len
            &&& -300_000_000_000_000_000 <= (b.x - a.x) * (len - rest) <= 300_000_000_000_000_000
            &&& -300_000_000_000_000_000 <= (b.y - a.y) * (len - rest) <= 300_000_000_000_000_000
            &&& -350_000_000 <= div_trunc((b.x - a.x) * (len - rest), 2 * len) <= 350_000_000
            &&& -350_000_000 <= div_trunc((b.y - a.y) * (len - rest), 2 * len) <= 350_000_000
        }),
{
    let d2: int = dist_sq(a, b);
    let len: int = sqrt_floor(d2 as nat) as int;
    lemma_sqrt_floor_is_root(d2 as nat);
    assert(0 <= (b.x - a.x) * (b.x - a.x) && 0 <= (b.y - a.y) * (b.y - a.y)) by (nonlinear_arith);
    assert(d2 <= 80_000_000_000_000_000) by (nonlinear_arith)
        requires
            -SAT_LIMIT <= a.x <= SAT_LIMIT,
            -SAT_LIMIT <= a.y <= SAT_LIMIT,
            -SAT_LIMIT <= b.x <= SAT_LIMIT,
            -SAT_LIMIT <= b.y <= SAT_LIMIT,
            SAT_LIMIT == 100_000_000,
            d2 == (b.x - a.x) * (b.x - a.x) + (b.y - a.y) * (b.y - a.y),
    ;
    assert(len < 300_000_000) by (nonlinear_arith)
        requires
            len >= 0,
            len * len <= d2,
            d2 <= 80_000_000_000_000_000,
    ;
    assert(len >= 1) by (nonlinear_arith)
        requires
            len >= 0,
            d2 >= 1,
            d2 < (len + 1) * (len + 1),
    ;
    assert(-len <= b.x - a.x <= len && -len <= b.y - a.y <= len) by (nonlinear_arith)
        requires
            (b.x - a.x) * (b.x - a.x) <= d2,
            (b.y - a.y) * (b.y - a.y) <= d2,
            d2 < (len + 1) * (len + 1),
            len >= 0,
    ;
    let e: int = len - rest;
    assert(-700_000_000 <= e <= 700_000_000);
    assert((-(2 * len * 350_000_000) <= (b.x - a.x) * e <= 2 * len * 350_000_000) && (-(2 * len
        * 350_000_000) <= (b.y - a.y) * e <= 2 * len * 350_000_000) && (-(
    300_000_000_000_000_000int) <= (b.x - a.x) * e <= 300_000_000_000_000_000) && (-(
    300_000_000_000_000_000int) <= (b.y - a.y) * e <= 300_000_000_000_000_000)) by (nonlinear_arith)
        requires
            -len <= b.x - a.x <= len,
            -len <= b.y - a.y <= len,
            -700_000_000 <= e <= 700_000_000,
            1 <= len < 300_000_000,
    ;
    lemma_div_trunc_le((b.x - a.x) * e, 2 * len, 350_000_000);
    lemma_div_trunc_le((b.y - a.y) * e, 2 * len, 350_000_000);
}

/// What any number of relaxation steps leaves of one particle `p` turned
/// into `q`: history, acceleration and pinning are untouched, a pinned
/// particle is never moved, and a bounded position stays bounded.
pub open spec fn keeps_frame(p: Particle, q: Particle) -> bool {
    &&& q.previous_position == p.previous_position
    &&& q.acceleration == p.acceleration
    &&& q.is_pinned == p.is_pinned
    &&& (p.is_pinned ==> q.position == p.position)
    &&& (within(p.position, POS_LIMIT) ==> within(q.position, POS_LIMIT))
}

/// Frame facts about one relaxation step: the arena keeps its length and
/// `keeps_frame` holds at every index.
pub proof fn lemma_satisfy_frame(ps: Seq<Particle>, c: Constraint)
    ensures
        spec_satisfy(ps, c).len() == ps.len(),
        forall|i: int| #![trigger spec_satisfy(ps, c)[i]]
            0 <= i < ps.len() ==> keeps_frame(ps[i], spec_satisfy(ps, c)[i]),
{
    if c.active && c.p1 < ps.len() && c.p2 < ps.len() && c.p1 != c.p2 {
        let pa = ps[c.p1 as int];
        let pb = ps[c.p2 as int];
        if sat_in_range(pa.position, pb.position, c.initial_length) && dist_sq(
            pa.position,
            pb.position,
        ) != 0 {
            assert(dist_sq(pa.position, pb.position) >= 0) by (nonlinear_arith);
            lemma_correction_bounds(pa.position, pb.position, c.initial_length);
        }
    }
}

impl Constraint {
    /// Links the two distinct particles at `p1` and `p2`, capturing the
    /// distance between their current positions as the rest length.
    /// Coincident endpoints are a precondition violation: they would
    /// leave nothing for the relaxation to divide by.
    pub fn new(particles: &Vec<Particle>, p1: usize, p2: usize) -> (c: Constraint)
        requires
            p1 < particles.len(),
            p2 < particles.len(),
            p1 != p2,
            within(particles[p1 as int].position, SAT_LIMIT),
            within(particles[p2 as int].position, SAT_LIMIT),
            dist_sq(particles[p1 as int].position, particles[p2 as int].position) > 0,
        ensures
            c.p1 == p1,
            c.p2 == p2,
            c.active,
            c.initial_length == sqrt_floor(
                dist_sq(particles[p1 as int].position, particles[p2 as int].position) as nat,
            ),
            1 <= c.initial_length <= REST_LIMIT,
    {
        let a: Vec2 = particles[p1].position;
        let b: Vec2 = particles[p2].position;
        let dx: i64 = b.x - a.x;
        let dy: i64 = b.y - a.y;
        proof {
            assert(0 <= dx * dx <= 40_000_000_000_000_000 && 0 <= dy * dy
                <= 40_000_000_000_000_000) by (nonlinear_arith)
                requires
                    -200_000_000 <= dx <= 200_000_000,
                    -200_000_000 <= dy <= 200_000_000,
            ;
        }
        let d2: i64 = dx * dx + dy * dy;
        let len_u: u64 = isqrt_u64(d2 as u64);
        proof {
            assert(len_u < 300_000_000) by (nonlinear_arith)
                requires
                    len_u * len_u <= 80_000_000_000_000_000,
            ;
        }
        Constraint { p1, p2, initial_length: len_u as i64, active: true }
    }

    /// One relaxation step, exactly as `spec_satisfy` describes it.
    pub fn satisfy(&self, particles: &mut Vec<Particle>)
        ensures
            final(particles)@ == spec_satisfy(old(particles)@, *self),
    {
        if !self.active {
            return ;
        }
        if self.p1 >= particles.len() || self.p2 >= particles.len() || self.p1 == self.p2 {
            return ;
        }
        let pa: Particle = particles[self.p1];
        let pb: Particle = particles[self.p2];
        if pa.position.x < -SAT_LIMIT || pa.position.x > SAT_LIMIT || pa.position.y < -SAT_LIMIT
            || pa.position.y > SAT_LIMIT || pb.position.x < -SAT_LIMIT || pb.position.x > SAT_LIMIT
            || pb.position.y < -SAT_LIMIT || pb.position.y > SAT_LIMIT || self.initial_length < 0
            || self.initial_length > REST_LIMIT {
            return ;
        }
        let dx: i64 = pb.position.x - pa.position.x;
        let dy: i64 = pb.position.y - pa.position.y;
        proof {
            assert(0 <= dx * dx <= 40_000_000_000_000_000 && 0 <= dy * dy
                <= 40_000_000_000_000_000) by (nonlinear_arith)
                requires
                    -200_000_000 <= dx <= 200_000_000,
                    -200_000_000 <= dy <= 200_000_000,
            ;
        }
        let d2: i64 = dx * dx + dy * dy;
        if d2 == 0 {
            return ;
        }
        proof {
            assert(d2 == dist_sq(pa.position, pb.position));
            assert(d2 > 0);
            lemma_correction_bounds(pa.position, pb.position, self.initial_length);
        }
        let len_u: u64 = isqrt_u64(d2 as u64);
        let len: i64 = len_u as i64;
        let e: i64 = len - self.initial_length;
        let numx: i64 = dx * e;
        let numy: i64 = dy * e;
        let den: i64 = 2 * len;
        let cx: i64 = div_trunc_i64(numx, den);
        let cy: i64 = div_trunc_i64(numy, den);
        if !pa.is_pinned {
            let npa = Particle {
                position: Vec2 { x: pa.position.x + cx, y: pa.position.y + cy },
                ..pa
            };
            particles[self.p1] = npa;
        }
        if !pb.is_pinned {
            let npb = Particle {
                position: Vec2 { x: pb.position.x - cx, y: pb.position.y - cy },
                ..pb
            };
            particles[self.p2] = npb;
        }
        proof {
            assert(particles@ =~= spec_satisfy(old(particles)@, *self));
        }
    }

    /// Soft-deletes the link; never reversed, and idempotent.
    pub fn deactivate(&mut self)
        ensures
            *final(self) == (Constraint { active: false, ..*old(self) }),
    {
        self.active = false;
    }
}


/// Relaxation convergence on an unpinned, horizontally aligned pair:
/// one `satisfy` step moves the current length strictly toward the rest
/// length whenever the two differ by at least two length units. (A gap
/// of a single unit is below the resolution of the integer
/// half-correction and is left as it is.)
pub proof fn lemma_satisfy_converges(ps: Seq<Particle>, c: Constraint)
    requires
        c.active,
        c.p1 < ps.len(),
        c.p2 < ps.len(),
        c.p1 != c.p2,
        !ps[c.p1 as int].is_pinned,
        !ps[c.p2 as int].is_pinned,
        sat_in_range(ps[c.p1 as int].position, ps[c.p2 as int].position, c.initial_length),
        1 <= c.initial_length,
        ps[c.p1 as int].position.y == ps[c.p2 as int].position.y,
        ps[c.p1 as int].position.x < ps[c.p2 as int].position.x,
        abs_i(ps[c.p2 as int].position.x - ps[c.p1 as int].position.x - c.initial_length) >= 2,
    ensures
        ({
            let pa2 = spec_satisfy(ps, c)[c.p1 as int];
            let pb2 = spec_satisfy(ps, c)[c.p2 as int];
            let len1: int = sqrt_floor(
                dist_sq(ps[c.p1 as int].position, ps[c.p2 as int].position) as nat,
            ) as int;
            let len2: int = sqrt_floor(dist_sq(pa2.position, pb2.position) as nat) as int;
            abs_i(len2 - c.initial_length) < abs_i(len1 - c.initial_length)
        }),
{
    let pa = ps[c.p1 as int];
    let pb = ps[c.p2 as int];
    let rest: int = c.initial_length as int;
    let dx: int = pb.position.x - pa.position.x;
    let d2: int = dist_sq(pa.position, pb.position);
    assert(d2 == dx * dx);
    assert(1 <= dx * dx) by (nonlinear_arith)
        requires
            1 <= dx,
    ;
    lemma_sqrt_floor_square(dx as nat);
    let len: int = sqrt_floor(d2 as nat) as int;
    assert(len == dx);
    lemma_correction_bounds(pa.position, pb.position, c.initial_length);
    let e: int = len - rest;
    lemma_div_trunc_scale(e, 2, dx);
    assert(dx * e == (pb.position.x - pa.position.x) * (len - c.initial_length) && dx * 2 == 2
        * len);
    let t: int = div_trunc(e, 2);
    assert(div_trunc((pb.position.x - pa.position.x) * (len - c.initial_length), 2 * len) == t);
    assert((pb.position.y - pa.position.y) * (len - c.initial_length) == 0);
    assert(0int / (2 * len) == 0) by (nonlinear_arith)
        requires
            2 * len >= 1,
    ;
    assert(div_trunc((pb.position.y - pa.position.y) * (len - c.initial_length), 2 * len) == 0);
    let pa2 = spec_satisfy(ps, c)[c.p1 as int];
    let pb2 = spec_satisfy(ps, c)[c.p2 as int];
    assert(pa2.position.x == pa.position.x + t && pa2.position.y == pa.position.y);
    assert(pb2.position.x == pb.position.x - t && pb2.position.y == pb.position.y);
    let ndx: int = pb2.position.x - pa2.position.x;
    assert(ndx == dx - 2 * t);
    if e >= 2 {
        assert(t == e / 2);
        vstd::arithmetic::div_mod::lemma_fundamental_div_mod(e, 2);
        vstd::arithmetic::div_mod::lemma_mod_bound(e, 2);
        assert(ndx == rest + (e % 2));
    } else {
        assert(e <= -2);
        let m: int = -e;
        assert(t == -(m / 2));
        vstd::arithmetic::div_mod::lemma_fundamental_div_mod(m, 2);
        vstd::arithmetic::div_mod::lemma_mod_bound(m, 2);
        assert(ndx == rest - (m % 2));
    }
    assert(0 <= ndx);
    assert(dist_sq(pa2.position, pb2.position) == ndx * ndx);
    lemma_sqrt_floor_square(ndx as nat);
    assert(sqrt_floor(dist_sq(pa2.position, pb2.position) as nat) as int == ndx);
}

/// The arena after `n` relaxation steps of the same constraint.
pub open spec fn spec_satisfy_iter(ps: Seq<Particle>, c: Constraint, n: nat) -> Seq<Particle>
    decreases n,
{
    if n == 0 {
        ps
    } else {
        spec_satisfy(spec_satisfy_iter(ps, c, (n - 1) as nat), c)
    }
}

/// A deactivated constraint never moves anything again, however many
/// times `satisfy` runs.
pub proof fn lemma_inactive_satisfy_noop(ps: Seq<Particle>, c: Constraint, n: nat)
    requires
        !c.active,
    ensures
        spec_satisfy_iter(ps, c, n) == ps,
    decreases n,
{
    if n > 0 {
        lemma_inactive_satisfy_noop(ps, c, (n - 1) as nat);
    }
}

} // verus!
