//! A single point mass with a remaining-lifetime countdown.

use crate::units::{sub_spec, sub_units};
use crate::vector::{spec_add, spec_scale, Vector2};
use vstd::arithmetic::mul::{lemma_mul_is_distributive_add_other_way, lemma_mul_nonnegative};
use vstd::prelude::*;

verus! {

/// One simulated particle. `force` accumulates between ticks and is spent
/// and reset by each tick; `lifetime` is the time-to-live it was born with
/// and never changes.
#[derive(Clone, Copy, Debug, PartialEq, Eq, Structural)]
pub struct Particle {
    pub time_left: i64,
    pub lifetime: i64,
    pub velocity: Vector2,
    pub position: Vector2,
    pub force: Vector2,
}

/// Where newly spawned particles appear: at one point, on a disc around a
/// center, or inside an axis-aligned box given by origin and size.
#[derive(Clone, Copy, Debug)]
pub enum SpawnStrategy {
    Circle(Vector2, i64),
    Point(Vector2),
    Box(Vector2, Vector2),
}

/// A particle after one more force application: only the accumulator moves.
pub open spec fn spec_apply_force(p: Particle, f: Vector2) -> Particle {
    Particle { force: spec_add(p.force, f), ..p }
}

/// A particle after one tick of length `dt`: semi-implicit Euler. The
/// velocity absorbs the accumulated force first, the position then moves by
/// the updated velocity, the countdown loses `dt`, and the accumulator is
/// spent.
pub open spec fn spec_tick(p: Particle, dt: int) -> Particle {
    let v = spec_add(p.velocity, spec_scale(p.force, dt));
    Particle {
        time_left: sub_spec(p.time_left as int, dt) as i64,
        lifetime: p.lifetime,
        velocity: v,
        position: spec_add(p.position, spec_scale(v, dt)),
        force: Vector2 { x: 0, y: 0 },
    }
}

/// A particle after `n` ticks of length `dt`.
pub open spec fn spec_tick_n(p: Particle, dt: int, n: nat) -> Particle
    decreases n,
{
    if n == 0 {
        p
    } else {
        spec_tick(spec_tick_n(p, dt, (n - 1) as nat), dt)
    }
}

/// A particle still to be drawn and ticked; at zero or below it is removed.
pub open spec fn is_alive(p: Particle) -> bool {
    p.time_left > 0
}

impl Particle {
    /// A fresh particle: the countdown starts at the full time-to-live and
    /// the force accumulator is empty.
    pub fn new(ttl: i64, initial_velocity: Vector2, initial_position: Vector2) -> (p: Particle)
        ensures
            p.time_left == ttl,
            p.lifetime == ttl,
            p.velocity == initial_velocity,
            p.position == initial_position,
            p.force == (Vector2 { x: 0, y: 0 }),
    {
        Particle {
            time_left: ttl,
            lifetime: ttl,
            velocity: initial_velocity,
            position: initial_position,
            force: Vector2::zero(),
        }
    }

    /// Adds into the force accumulator; several applications before a tick
    /// sum.
    pub fn apply_force(&mut self, force: Vector2)
        ensures
            *final(self) == spec_apply_force(*old(self), force),
    {
        self.force = self.force.add(force);
    }

    /// One physics step of length `dt`; see [`spec_tick`].
    pub fn tick(&mut self, dt: i64)
        ensures
            *final(self) == spec_tick(*old(self), dt as int),
    {
        self.time_left = sub_units(self.time_left, dt);
        self.velocity = self.velocity.add(self.force.scale(dt));
        self.position = self.position.add(self.velocity.scale(dt));
        self.force = Vector2::zero();
    }
}

/// A particle holding no velocity and no accumulated force does not move,
/// however many ticks pass, and its countdown loses exactly `dt` per tick
/// as long as the countdown stays in range.
pub proof fn lemma_tick_n_at_rest(p: Particle, dt: int, n: nat)
    requires
        p.velocity == (Vector2 { x: 0, y: 0 }),
        p.force == (Vector2 { x: 0, y: 0 }),
        0 <= dt,
        i64::MIN <= p.time_left - n * dt,
    ensures
        spec_tick_n(p, dt, n).position == p.position,
        spec_tick_n(p, dt, n).velocity == p.velocity,
        spec_tick_n(p, dt, n).force == p.force,
        spec_tick_n(p, dt, n).time_left as int == p.time_left - n * dt,
        spec_tick_n(p, dt, n).lifetime == p.lifetime,
    decreases n,
{
    if n > 0 {
        lemma_mul_is_distributive_add_other_way(dt, n as int - 1, 1);
        lemma_mul_nonnegative(n as int - 1, dt);
        lemma_tick_n_at_rest(p, dt, (n - 1) as nat);
    } else {
        assert(n * dt == 0) by (nonlinear_arith)
            requires
                n == 0,
        ;
    }
}

/// Applying a force to a particle with an empty accumulator and then
/// ticking moves the velocity by `f * dt` and the position by the updated
/// velocity times `dt`: the position change sees the force of the very same
/// tick.
pub proof fn lemma_force_then_tick(p: Particle, f: Vector2, dt: int)
    requires
        p.force == (Vector2 { x: 0, y: 0 }),
    ensures
        spec_tick(spec_apply_force(p, f), dt).velocity == spec_add(
            p.velocity,
            spec_scale(f, dt),
        ),
        spec_tick(spec_apply_force(p, f), dt).position == spec_add(
            p.position,
            spec_scale(spec_tick(spec_apply_force(p, f), dt).velocity, dt),
        ),
{
    assert(spec_add(p.force, f) == f);
}

} // verus!
