//! A point mass with position history, integrated by the Verlet scheme:
//! velocity is implicit in the difference between the current and the
//! previous position. A pinned particle is a fixed anchor: force and
//! integration leave it untouched.
use vstd::prelude::*;

use crate::geom::{div_trunc, div_trunc_i64, lemma_div_trunc_le, within, Vec2};
use crate::{ACC_LIMIT, DT_LIMIT, POS_LIMIT};

verus! {

#[derive(Clone, Copy, PartialEq, Eq, Structural, Debug)]
pub struct Particle {
    pub position: Vec2,
    pub previous_position: Vec2,
    pub acceleration: Vec2,
    pub is_pinned: bool,
}

/// What `apply_force` leaves behind: the force joins the accumulated
/// acceleration unless the particle is pinned.
pub open spec fn spec_apply_force(p: Particle, force: Vec2) -> Particle {
    if p.is_pinned {
        p
    } else {
        Particle {
            acceleration: Vec2 {
                x: (p.acceleration.x + force.x) as i64,
                y: (p.acceleration.y + force.y) as i64,
            },
            ..p
        }
    }
}

/// What `update` leaves behind: one Verlet step with the time step given
/// in thousandths of a time unit, after which the accumulated
/// acceleration is spent.
pub open spec fn spec_update(p: Particle, time_step: i64) -> Particle {
    if p.is_pinned {
        p
    } else {
        let nx: int = p.position.x + (p.position.x - p.previous_position.x) + div_trunc(
            p.acceleration.x * time_step * time_step,
            1_000_000,
        );
        let ny: int = p.position.y + (p.position.y - p.previous_position.y) + div_trunc(
            p.acceleration.y * time_step * time_step,
            1_000_000,
        );
        Particle {
            position: Vec2 { x: nx as i64, y: ny as i64 },
            previous_position: p.position,
            acceleration: Vec2 { x: 0, y: 0 },
            is_pinned: false,
        }
    }
}

/// One coordinate pushed back into `[0, hi]`, mirroring the two
/// sequential comparisons of `constrain_to_bounds`.
pub open spec fn clamped_coord(v: i64, hi: i64) -> i64 {
    let low: i64 = if v < 0 {
        0i64
    } else {
        v
    };
    if low > hi {
        hi
    } else {
        low
    }
}

/// What `constrain_to_bounds` leaves behind; it applies to pinned
/// particles as well, as a safety net.
pub open spec fn spec_clamp(p: Particle, width: i64, height: i64) -> Particle {
    Particle {
        position: Vec2 {
            x: clamped_coord(p.position.x, width),
            y: clamped_coord(p.position.y, height),
        },
        ..p
    }
}

/// A particle's whole share of one tick: force, integration, clamping.
pub open spec fn spec_particle_step(
    p: Particle,
    gravity: Vec2,
    time_step: i64,
    width: i64,
    height: i64,
) -> Particle {
    spec_clamp(spec_update(spec_apply_force(p, gravity), time_step), width, height)
}

/// Force then integration never move a pinned particle.
pub proof fn lemma_pinned_unmoved(p: Particle, force: Vec2, time_step: i64)
    requires
        p.is_pinned,
    ensures
        spec_update(spec_apply_force(p, force), time_step) == p,
{
}

impl Particle {
    /// A particle at rest: the previous position equals the position, so
    /// the implicit velocity is zero, and no acceleration is stored.
    pub fn from_xy(x: i64, y: i64, is_pinned: bool) -> (p: Particle)
        ensures
            p == (Particle {
                position: Vec2 { x, y },
                previous_position: Vec2 { x, y },
                acceleration: Vec2 { x: 0, y: 0 },
                is_pinned,
            }),
    {
        Particle {
            position: Vec2 { x, y },
            previous_position: Vec2 { x, y },
            acceleration: Vec2 { x: 0, y: 0 },
            is_pinned,
        }
    }

    /// Adds `force` to the accumulated acceleration; a no-op on a pinned
    /// particle.
    pub fn apply_force(&mut self, force: Vec2)
        requires
            !old(self).is_pinned ==> i64::MIN <= old(self).acceleration.x + force.x <= i64::MAX,
            !old(self).is_pinned ==> i64::MIN <= old(self).acceleration.y + force.y <= i64::MAX,
        ensures
            *final(self) == spec_apply_force(*old(self), force),
    {
        if !self.is_pinned {
            self.acceleration.x = self.acceleration.x + force.x;
            self.acceleration.y = self.acceleration.y + force.y;
        }
    }

    /// One Verlet integration step; a no-op on a pinned particle.
    pub fn update(&mut self, time_step: i64)
        requires
            0 <= time_step <= DT_LIMIT,
            !old(self).is_pinned ==> within(old(self).position, POS_LIMIT) && within(
                old(self).previous_position,
                POS_LIMIT,
            ) && within(old(self).acceleration, ACC_LIMIT),
        ensures
            *final(self) == spec_update(*old(self), time_step),
    {
        if !self.is_pinned {
            proof {
                assert(-10_000_000_000 <= self.acceleration.x * time_step <= 10_000_000_000
                    && -10_000_000_000 <= self.acceleration.y * time_step
                        <= 10_000_000_000) by (nonlinear_arith)
                    requires
                        -ACC_LIMIT <= self.acceleration.x <= ACC_LIMIT,
                        -ACC_LIMIT <= self.acceleration.y <= ACC_LIMIT,
                        0 <= time_step <= DT_LIMIT,
                        ACC_LIMIT == 1_000_000,
                        DT_LIMIT == 10_000,
                ;
            }
            let axt: i64 = self.acceleration.x * time_step;
            let ayt: i64 = self.acceleration.y * time_step;
            proof {
                assert(-100_000_000_000_000 <= axt * time_step <= 100_000_000_000_000
                    && -100_000_000_000_000 <= ayt * time_step
                        <= 100_000_000_000_000) by (nonlinear_arith)
                    requires
                        -10_000_000_000 <= axt <= 10_000_000_000,
                        -10_000_000_000 <= ayt <= 10_000_000_000,
                        0 <= time_step <= 10_000,
                ;
            }
            let ax2: i64 = axt * time_step;
            let ay2: i64 = ayt * time_step;
            let dax: i64 = div_trunc_i64(ax2, 1_000_000);
            let day: i64 = div_trunc_i64(ay2, 1_000_000);
            proof {
                lemma_div_trunc_le(ax2 as int, 1_000_000, 100_000_000);
                lemma_div_trunc_le(ay2 as int, 1_000_000, 100_000_000);
            }
            let vx: i64 = self.position.x - self.previous_position.x;
            let vy: i64 = self.position.y - self.previous_position.y;
            let nx: i64 = self.position.x + vx + dax;
            let ny: i64 = self.position.y + vy + day;
            self.previous_position = self.position;
            self.position = Vec2 { x: nx, y: ny };
            self.acceleration = Vec2 { x: 0, y: 0 };
        }
    }

    /// Pushes the position back into `[0, width] x [0, height]`; applies
    /// even to pinned particles.
    pub fn constrain_to_bounds(&mut self, width: i64, height: i64)
        ensures
            *final(self) == spec_clamp(*old(self), width, height),
            width >= 0 ==> 0 <= final(self).position.x <= width,
            height >= 0 ==> 0 <= final(self).position.y <= height,
    {
        if self.position.x < 0 {
            self.position.x = 0;
        }
        if self.position.x > width {
            self.position.x = width;
        }
        if self.position.y < 0 {
            self.position.y = 0;
        }
        if self.position.y > height {
            self.position.y = height;
        }
    }
}

} // verus!
