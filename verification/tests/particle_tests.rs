use glowgrid::particle::Particle;
use glowgrid::units::UNIT;
use glowgrid::vector::Vector2;

#[test]
fn resting_particle_only_loses_time() {
    let dt: i64 = 33_333;
    let mut p = Particle::new(UNIT, Vector2::zero(), Vector2::new(7 * UNIT, 3 * UNIT));
    for _ in 0..5 {
        p.tick(dt);
    }
    assert_eq!(p.position, Vector2::new(7 * UNIT, 3 * UNIT));
    assert_eq!(p.velocity, Vector2::zero());
    assert_eq!(p.time_left, UNIT - 5 * dt);
    assert_eq!(p.lifetime, UNIT);
}

#[test]
fn force_then_tick_is_semi_implicit() {
    // With v0 = 0, explicit Euler would leave the position unchanged after
    // one tick; semi-implicit moves it by (f*dt)*dt.
    let dt: i64 = UNIT / 2;
    let f = Vector2::new(UNIT, -2 * UNIT);
    let mut p = Particle::new(UNIT, Vector2::zero(), Vector2::zero());
    p.apply_force(f);
    p.tick(dt);
    assert_eq!(p.velocity, Vector2::new(UNIT / 2, -UNIT));
    assert_eq!(p.position, Vector2::new(UNIT / 4, -UNIT / 2));
    assert_eq!(p.force, Vector2::zero());
}

#[test]
fn forces_accumulate_between_ticks() {
    let mut p = Particle::new(UNIT, Vector2::zero(), Vector2::zero());
    p.apply_force(Vector2::new(UNIT, 0));
    p.apply_force(Vector2::new(2 * UNIT, UNIT));
    p.tick(UNIT);
    // dt of one whole unit: velocity becomes the summed force
    assert_eq!(p.velocity, Vector2::new(3 * UNIT, UNIT));
    assert_eq!(p.position, Vector2::new(3 * UNIT, UNIT));
}

#[test]
fn velocity_moves_position_by_dt() {
    let dt: i64 = UNIT / 4;
    let mut p = Particle::new(UNIT, Vector2::new(4 * UNIT, -8 * UNIT), Vector2::new(UNIT, UNIT));
    p.tick(dt);
    assert_eq!(p.position, Vector2::new(2 * UNIT, -UNIT));
    assert_eq!(p.time_left, UNIT - dt);
}
