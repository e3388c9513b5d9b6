//! A pool of particles under one spawn policy, gravity and visual theme.
//!
//! The pool holds a fixed target population: every tick integrates all
//! particles, removes the ones whose countdown ran out, and spawns exactly
//! as many fresh ones.

use crate::gradient::{pick_index, Gradient};
use crate::particle::{
    is_alive, spec_apply_force, spec_tick, Particle, SpawnStrategy,
};
use crate::screen::{rendered_cell, Screen};
use crate::units::{
    add_spec, add_units, clamp_i32, clamp_i32_spec, lemma_mul_spec_pos, mul_spec, mul_units,
    ratio_spec, ratio_units, round_spec, round_units, sub_spec, TWO_PI_UNITS,
};
use crate::vector::{spec_scale, Vector2};
use rand::Rng;
use vstd::prelude::*;

verus! {

/// The smallest scale a spawn draws: a tenth of a unit.
pub const SPAWN_SCALE_LO: i64 = 100_000;

/// The largest scale a spawn draws: one and nine tenths of a unit.
pub const SPAWN_SCALE_HI: i64 = 1_900_000;

/// Relies on `rand::thread_rng` and `rand::Rng::gen_range` on an inclusive
/// `i64` range: the draw lies within the bounds. `gen_range` panics on an
/// empty range, so the bounds must be ordered.
#[verifier::external_body]
fn random_in_range(lo: i64, hi: i64) -> (r: i64)
    requires
        lo <= hi,
    ensures
        lo <= r <= hi,
{
    let mut rng = rand::thread_rng();
    rng.gen_range(lo..=hi)
}

/// The particle invariant the pool maintains: a live countdown that never
/// exceeds the particle's own time-to-live.
pub open spec fn particle_wf(p: Particle) -> bool {
    0 < p.time_left <= p.lifetime
}

/// A spawn geometry the policy can draw from: a disc needs a non-negative
/// radius, a box a non-negative size on both axes.
pub open spec fn strategy_wf(s: SpawnStrategy) -> bool {
    match s {
        SpawnStrategy::Circle(_, radius) => radius >= 0,
        SpawnStrategy::Point(_) => true,
        SpawnStrategy::Box(_, size) => size.x >= 0 && size.y >= 0,
    }
}

/// Where a particle spawned under this strategy may sit: exactly the point,
/// inside the box on both axes, or within the disc's bounding square (every
/// polar offset of magnitude at most the radius lands there).
pub open spec fn position_ok(strat: SpawnStrategy, pos: Vector2) -> bool {
    match strat {
        SpawnStrategy::Point(q) => pos == q,
        SpawnStrategy::Box(origin, size) => origin.x as int <= pos.x as int <= add_spec(
            origin.x as int,
            size.x as int,
        ) && origin.y as int <= pos.y as int <= add_spec(origin.y as int, size.y as int),
        SpawnStrategy::Circle(center, radius) => sub_spec(center.x as int, radius as int)
            <= pos.x as int <= add_spec(center.x as int, radius as int) && sub_spec(
            center.y as int,
            radius as int,
        ) <= pos.y as int <= add_spec(center.y as int, radius as int),
    }
}

/// Every particle after one force application and one integration step.
pub open spec fn integrated(ps: Seq<Particle>, gravity: Vector2, dt: int) -> Seq<Particle> {
    ps.map_values(|p: Particle| spec_tick(spec_apply_force(p, gravity), dt))
}

/// Only the particles whose countdown is still running, in order.
pub open spec fn alive_only(ps: Seq<Particle>) -> Seq<Particle> {
    ps.filter(|p: Particle| is_alive(p))
}

/// The particles a tick keeps: integrated, then stripped of the dead.
pub open spec fn survivors(ps: Seq<Particle>, gravity: Vector2, dt: int) -> Seq<Particle> {
    alive_only(integrated(ps, gravity, dt))
}

/// A pool of particles with its spawn policy, physics constants and the
/// gradients that give each particle its glyph and color by age.
pub struct ParticleSystem {
    pub particles: Vec<Particle>,
    pub gravity: Vector2,
    pub particle_lifetime: i64,
    pub number_of_particles: usize,
    pub initial_velocity: Vector2,
    pub spawn_strategy: SpawnStrategy,
    pub color_map: Gradient<String>,
    pub char_map: Gradient<char>,
}

/// The settings of two systems agree; only the pool may differ.
pub open spec fn same_config(a: ParticleSystem, b: ParticleSystem) -> bool {
    a.gravity == b.gravity && a.particle_lifetime == b.particle_lifetime
        && a.number_of_particles == b.number_of_particles && a.initial_velocity
        == b.initial_velocity && a.spawn_strategy == b.spawn_strategy && a.color_map == b.color_map
        && a.char_map == b.char_map
}

impl ParticleSystem {
    /// The settings a pool needs: a base time-to-live of at least ten
    /// micro-steps (so a spawn at the smallest scale still lives), a
    /// drawable spawn geometry, and non-empty gradients.
    pub open spec fn config_wf(self) -> bool {
        10 <= self.particle_lifetime && strategy_wf(self.spawn_strategy) && self.color_map.wf()
            && self.char_map.wf()
    }

    /// Every pooled particle satisfies the particle invariant.
    pub open spec fn pool_wf(self) -> bool {
        forall|i: int|
            0 <= i < self.particles@.len() ==> particle_wf(#[trigger] self.particles@[i])
    }

    /// A settled system: sound settings, a sound pool, and the pool at its
    /// target population.
    pub open spec fn wf(self) -> bool {
        self.config_wf() && self.pool_wf() && self.particles@.len()
            == self.number_of_particles as int
    }

    /// What a freshly spawned particle looks like: countdown full at a
    /// time-to-live scaled from the base by a draw in the spawn range, the
    /// base velocity scaled by a draw in the same range, an empty force
    /// accumulator, and a position the strategy allows.
    pub open spec fn fresh_spawn(self, p: Particle) -> bool {
        (exists|s: int|
            SPAWN_SCALE_LO <= s <= SPAWN_SCALE_HI && p.lifetime as int == #[trigger] mul_spec(
                self.particle_lifetime as int,
                s,
            )) && p.time_left == p.lifetime && (exists|s: int|
            SPAWN_SCALE_LO <= s <= SPAWN_SCALE_HI && p.velocity == #[trigger] spec_scale(
                self.initial_velocity,
                s,
            )) && p.force == (Vector2 { x: 0, y: 0 }) && position_ok(self.spawn_strategy, p.position)
    }

    /// Appends one freshly initialized particle drawn by the spawn policy;
    /// everything already pooled, and every setting, stays as it was.
    pub fn spawn_particle(&mut self)
        requires
            old(self).config_wf(),
        ensures
            same_config(*old(self), *final(self)),
            final(self).particles@.len() == old(self).particles@.len() + 1,
            final(self).particles@.subrange(0, old(self).particles@.len() as int) == old(
                self,
            ).particles@,
            old(self).fresh_spawn(final(self).particles@.last()),
            particle_wf(final(self).particles@.last()),
    {
        let ttl_scale: i64 = random_in_range(SPAWN_SCALE_LO, SPAWN_SCALE_HI);
        let ttl: i64 = mul_units(self.particle_lifetime, ttl_scale);
        proof {
            lemma_mul_spec_pos(self.particle_lifetime as int, ttl_scale as int);
        }
        let velocity_scale: i64 = random_in_range(SPAWN_SCALE_LO, SPAWN_SCALE_HI);
        let initial_velocity = self.initial_velocity.scale(velocity_scale);
        let initial_position: Vector2 = match self.spawn_strategy {
            SpawnStrategy::Box(origin, size) => {
                let hx: i64 = add_units(origin.x, size.x);
                let hy: i64 = add_units(origin.y, size.y);
                Vector2::new(random_in_range(origin.x, hx), random_in_range(origin.y, hy))
            },
            SpawnStrategy::Circle(center, radius) => {
                let angle: i64 = random_in_range(0, TWO_PI_UNITS - 1);
                let magnitude: i64 = random_in_range(0, radius);
                let offset = Vector2::from_polar(angle, magnitude);
                center.add(offset)
            },
            SpawnStrategy::Point(position) => position,
        };
        let particle = Particle::new(ttl, initial_velocity, initial_position);
        let ghost before = self.particles@;
        self.particles.push(particle);
        proof {
            assert(self.particles@.subrange(0, before.len() as int) =~= before);
        }
    }

    /// A system born at full population: `number_of_particles` fresh spawns.
    pub fn new(
        particle_lifetime: i64,
        number_of_particles: usize,
        gravity: Vector2,
        initial_velocity: Vector2,
        spawn_strategy: SpawnStrategy,
        color_map: Gradient<String>,
        char_map: Gradient<char>,
    ) -> (sys: ParticleSystem)
        requires
            10 <= particle_lifetime,
            strategy_wf(spawn_strategy),
            color_map.wf(),
            char_map.wf(),
        ensures
            sys.wf(),
            sys.gravity == gravity,
            sys.particle_lifetime == particle_lifetime,
            sys.number_of_particles == number_of_particles,
            sys.initial_velocity == initial_velocity,
            sys.spawn_strategy == spawn_strategy,
            sys.color_map == color_map,
            sys.char_map == char_map,
            forall|i: int|
                0 <= i < sys.particles@.len() ==> sys.fresh_spawn(#[trigger] sys.particles@[i]),
    {
        let mut sys = ParticleSystem {
            particles: Vec::new(),
            gravity,
            particle_lifetime,
            number_of_particles,
            initial_velocity,
            spawn_strategy,
            color_map,
            char_map,
        };
        let ghost start = sys;
        let mut i: usize = 0;
        while i < number_of_particles
            invariant
                i == sys.particles@.len(),
                i <= number_of_particles,
                same_config(start, sys),
                sys.config_wf(),
                sys.pool_wf(),
                forall|k: int|
                    0 <= k < sys.particles@.len() ==> sys.fresh_spawn(
                        #[trigger] sys.particles@[k],
                    ),
            decreases number_of_particles - i,
        {
            let ghost prev = sys;
            sys.spawn_particle();
            proof {
                assert forall|k: int|
                    0 <= k < sys.particles@.len() implies sys.fresh_spawn(sys.particles@[k])
                    && particle_wf(sys.particles@[k]) by {
                    if k < prev.particles@.len() {
                        assert(sys.particles@[k] == sys.particles@.subrange(
                            0,
                            prev.particles@.len() as int,
                        )[k]);
                        assert(sys.particles@[k] == prev.particles@[k]);
                    } else {
                        assert(sys.particles@[k] == sys.particles@.last());
                    }
                }
            }
            i += 1;
        }
        sys
    }

    /// One frame of simulation. Every particle first absorbs gravity and
    /// integrates (no particle is skipped or processed twice); only then are
    /// the expired ones removed, order preserved; and exactly as many fresh
    /// particles are spawned as were lost, so the pool ends at its target
    /// population however many particles (up to the target) it began with.
    pub fn tick(&mut self, dt: i64)
        requires
            old(self).config_wf(),
            old(self).pool_wf(),
            old(self).particles@.len() <= old(self).number_of_particles as int,
            0 < dt,
        ensures
            final(self).wf(),
            same_config(*old(self), *final(self)),
            final(self).particles@.len() == old(self).number_of_particles as int,
            final(self).particles@.subrange(
                0,
                survivors(old(self).particles@, old(self).gravity, dt as int).len() as int,
            ) == survivors(old(self).particles@, old(self).gravity, dt as int),
            forall|i: int|
                survivors(old(self).particles@, old(self).gravity, dt as int).len() <= i && i
                    < final(self).particles@.len() ==> old(self).fresh_spawn(
                    #[trigger] final(self).particles@[i],
                ),
    {
        let ghost orig = *self;
        let n: usize = self.particles.len();
        let mut i: usize = 0;
        while i < n
            invariant
                n == self.particles@.len(),
                i <= n,
                same_config(orig, *self),
                0 < dt,
                n == orig.particles@.len(),
                forall|k: int|
                    0 <= k < i ==> self.particles@[k] == spec_tick(
                        spec_apply_force(#[trigger] orig.particles@[k], orig.gravity),
                        dt as int,
                    ),
                forall|k: int| i <= k < n ==> #[trigger] self.particles@[k] == orig.particles@[k],
            decreases n - i,
        {
            let mut p: Particle = self.particles[i];
            p.apply_force(self.gravity);
            p.tick(dt);
            self.particles[i] = p;
            i += 1;
        }
        proof {
            assert(self.particles@ =~= integrated(orig.particles@, orig.gravity, dt as int));
        }
        let ghost ticked = self.particles@;
        let mut kept: Vec<Particle> = Vec::new();
        proof {
            assert(ticked.subrange(0, 0) =~= Seq::<Particle>::empty());
            assert(kept@ == alive_only(ticked.subrange(0, 0)));
        }
        let mut j: usize = 0;
        while j < n
            invariant
                n == self.particles@.len(),
                self.particles@ == ticked,
                j <= n,
                same_config(orig, *self),
                kept@.len() <= j,
                kept@ == alive_only(ticked.subrange(0, j as int)),
                forall|k: int| 0 <= k < kept@.len() ==> particle_wf(#[trigger] kept@[k]),
                orig.pool_wf(),
                0 < dt,
                n == orig.particles@.len(),
                forall|k: int|
                    0 <= k < n ==> ticked[k] == spec_tick(
                        spec_apply_force(#[trigger] orig.particles@[k], orig.gravity),
                        dt as int,
                    ),
            decreases n - j,
        {
            let p: Particle = self.particles[j];
            proof {
                lemma_alive_only_step(ticked, j as int);
            }
            if p.time_left > 0 {
                proof {
                    let p0 = orig.particles@[j as int];
                    assert(particle_wf(p0));
                    assert(p == spec_tick(spec_apply_force(p0, orig.gravity), dt as int));
                    assert(p.lifetime == p0.lifetime);
                    assert(p.time_left as int == sub_spec(p0.time_left as int, dt as int));
                    assert(p.time_left <= p.lifetime);
                }
                kept.push(p);
            }
            j += 1;
        }
        proof {
            assert(ticked.subrange(0, n as int) =~= ticked);
            assert(kept@ == survivors(orig.particles@, orig.gravity, dt as int));
        }
        self.particles = kept;
        let target: usize = self.number_of_particles;
        let ghost keptseq = self.particles@;
        let missing: usize = target - self.particles.len();
        let mut k: usize = 0;
        while k < missing
            invariant
                same_config(orig, *self),
                orig.config_wf(),
                k <= missing,
                self.particles@.len() == keptseq.len() + k,
                keptseq.len() + missing == target,
                target == orig.number_of_particles,
                self.particles@.subrange(0, keptseq.len() as int) == keptseq,
                forall|idx: int| 0 <= idx < keptseq.len() ==> particle_wf(#[trigger] keptseq[idx]),
                forall|idx: int|
                    keptseq.len() <= idx < self.particles@.len() ==> orig.fresh_spawn(
                        #[trigger] self.particles@[idx],
                    ) && particle_wf(self.particles@[idx]),
            decreases missing - k,
        {
            let ghost prev = *self;
            self.spawn_particle();
            proof {
                assert(self.particles@.subrange(0, keptseq.len() as int) =~= prev.particles@.subrange(
                    0,
                    keptseq.len() as int,
                ));
                assert forall|idx: int|
                    keptseq.len() <= idx < self.particles@.len() implies orig.fresh_spawn(
                    self.particles@[idx],
                ) && particle_wf(self.particles@[idx]) by {
                    if idx < prev.particles@.len() {
                        assert(self.particles@[idx] == self.particles@.subrange(
                            0,
                            prev.particles@.len() as int,
                        )[idx]);
                        assert(self.particles@[idx] == prev.particles@[idx]);
                    } else {
                        assert(self.particles@[idx] == self.particles@.last());
                        assert(prev.fresh_spawn(self.particles@.last()));
                    }
                }
            }
            k += 1;
        }
        proof {
            assert forall|idx: int| 0 <= idx < self.particles@.len() implies particle_wf(
                self.particles@[idx],
            ) by {
                if idx < keptseq.len() {
                    assert(self.particles@[idx] == self.particles@.subrange(
                        0,
                        keptseq.len() as int,
                    )[idx]);
                    assert(self.particles@[idx] == keptseq[idx]);
                }
            }
        }
    }
}

/// The normalized age a draw looks up: the remaining share of the
/// particle's own time-to-live, as a fixed-point fraction of one unit.
pub open spec fn age_of(p: Particle) -> int {
    ratio_spec(p.time_left as int, p.lifetime as int)
}

/// The grid row a particle paints: its y position rounded to the nearest
/// whole unit, clamped into `i32`.
pub open spec fn cell_row(p: Particle) -> int {
    clamp_i32_spec(round_spec(p.position.y as int))
}

/// The grid column a particle paints: its x position rounded the same way.
pub open spec fn cell_col(p: Particle) -> int {
    clamp_i32_spec(round_spec(p.position.x as int))
}

/// A grid after one write: the addressed cell replaced when the position is
/// on the grid, untouched otherwise.
pub open spec fn cells_after_write(
    cells: Seq<Seq<char>>,
    cols: int,
    rows: int,
    row: int,
    col: int,
    cell: Seq<char>,
) -> Seq<Seq<char>> {
    if 0 <= row < rows && 0 <= col < cols {
        cells.update(row * cols + col, cell)
    } else {
        cells
    }
}

impl ParticleSystem {
    /// The cell a particle paints: its glyph and color, each looked up from
    /// the system's gradients at the particle's age.
    pub open spec fn particle_cell(self, p: Particle) -> Seq<char> {
        rendered_cell(
            self.color_map@[pick_index(self.color_map@, age_of(p))].value@,
            self.char_map@[pick_index(self.char_map@, age_of(p))].value,
        )
    }

    /// The grid after the first `k` pooled particles have painted, in pool
    /// order; a later particle overpaints an earlier one on the same cell.
    pub open spec fn drawn_upto(
        self,
        cells: Seq<Seq<char>>,
        cols: int,
        rows: int,
        k: int,
    ) -> Seq<Seq<char>>
        decreases k,
    {
        if k <= 0 {
            cells
        } else {
            let prev = self.drawn_upto(cells, cols, rows, k - 1);
            let p = self.particles@[k - 1];
            cells_after_write(prev, cols, rows, cell_row(p), cell_col(p), self.particle_cell(p))
        }
    }

    /// Paints every pooled particle onto the screen, in pool order: glyph
    /// and color come from the gradients at the particle's age, the cell
    /// from its position rounded to the nearest row and column. Positions
    /// off the grid paint nothing.
    pub fn draw(&self, screen: &mut Screen)
        requires
            self.config_wf(),
            self.pool_wf(),
            old(screen).wf(),
        ensures
            final(screen).wf(),
            final(screen).spec_cols() == old(screen).spec_cols(),
            final(screen).spec_rows() == old(screen).spec_rows(),
            final(screen).cells() == self.drawn_upto(
                old(screen).cells(),
                old(screen).spec_cols(),
                old(screen).spec_rows(),
                self.particles@.len() as int,
            ),
    {
        let n: usize = self.particles.len();
        let mut i: usize = 0;
        while i < n
            invariant
                n == self.particles@.len(),
                i <= n,
                self.config_wf(),
                self.pool_wf(),
                screen.wf(),
                screen.spec_cols() == old(screen).spec_cols(),
                screen.spec_rows() == old(screen).spec_rows(),
                screen.cells() == self.drawn_upto(
                    old(screen).cells(),
                    old(screen).spec_cols(),
                    old(screen).spec_rows(),
                    i as int,
                ),
            decreases n - i,
        {
            let p: Particle = self.particles[i];
            proof {
                assert(particle_wf(self.particles@[i as int]));
            }
            let age: i64 = ratio_units(p.time_left, p.lifetime);
            let glyph: char = *self.char_map.get_value(age);
            let color: String = self.color_map.get_value(age).clone();
            let row: i32 = clamp_i32(round_units(p.position.y));
            let col: i32 = clamp_i32(round_units(p.position.x));
            screen.write_char(glyph, color, row, col);
            i += 1;
        }
    }
}

/// One step of dropping the dead: extending the scanned prefix by one
/// particle appends it to the survivors exactly when it is alive.
proof fn lemma_alive_only_step(s: Seq<Particle>, j: int)
    requires
        0 <= j < s.len(),
    ensures
        is_alive(s[j]) ==> alive_only(s.subrange(0, j + 1)) == alive_only(s.subrange(0, j)).push(
            s[j],
        ),
        !is_alive(s[j]) ==> alive_only(s.subrange(0, j + 1)) == alive_only(s.subrange(0, j)),
{
    reveal_with_fuel(Seq::filter, 2);
    let a = s.subrange(0, j + 1);
    assert(a.drop_last() =~= s.subrange(0, j));
    assert(a.last() == s[j]);
    assert(a.len() > 0);
}

} // verus!
