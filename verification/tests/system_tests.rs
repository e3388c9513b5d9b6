use glowgrid::gradient::Gradient;
use glowgrid::particle::SpawnStrategy;
use glowgrid::screen::Screen;
use glowgrid::system::ParticleSystem;
use glowgrid::units::UNIT;
use glowgrid::vector::Vector2;

fn theme() -> (Gradient<String>, Gradient<char>) {
    let colors = Gradient::with_equal_spacing(vec!["18".to_string(), "44".to_string()]);
    let chars = Gradient::with_equal_spacing(vec!['.', '*', '#']);
    (colors, chars)
}

fn point_system(count: usize) -> ParticleSystem {
    let (colors, chars) = theme();
    ParticleSystem::new(
        UNIT / 2,
        count,
        Vector2::new(0, -40 * UNIT),
        Vector2::new(0, -6 * UNIT),
        SpawnStrategy::Point(Vector2::new(3 * UNIT, 4 * UNIT)),
        colors,
        chars,
    )
}

#[test]
fn new_system_starts_at_full_population() {
    let sys = point_system(25);
    assert_eq!(sys.particles.len(), 25);
}

#[test]
fn tick_keeps_population_at_target() {
    let mut sys = point_system(40);
    let dt = UNIT / 30;
    for _ in 0..60 {
        sys.tick(dt);
        assert_eq!(sys.particles.len(), 40);
    }
}

#[test]
fn box_spawns_stay_inside_the_box() {
    let (colors, chars) = theme();
    let origin = Vector2::new(2 * UNIT, 3 * UNIT);
    let size = Vector2::new(5 * UNIT, UNIT);
    let sys = ParticleSystem::new(
        UNIT,
        1000,
        Vector2::zero(),
        Vector2::zero(),
        SpawnStrategy::Box(origin, size),
        colors,
        chars,
    );
    assert_eq!(sys.particles.len(), 1000);
    for p in &sys.particles {
        assert!(origin.x <= p.position.x && p.position.x <= origin.x + size.x);
        assert!(origin.y <= p.position.y && p.position.y <= origin.y + size.y);
    }
}

#[test]
fn point_spawns_sit_exactly_on_the_point() {
    let sys = point_system(100);
    for p in &sys.particles {
        assert_eq!(p.position, Vector2::new(3 * UNIT, 4 * UNIT));
    }
}

#[test]
fn circle_spawns_stay_inside_the_bounding_square() {
    let (colors, chars) = theme();
    let center = Vector2::new(10 * UNIT, -2 * UNIT);
    let radius = 3 * UNIT;
    let sys = ParticleSystem::new(
        UNIT,
        500,
        Vector2::zero(),
        Vector2::zero(),
        SpawnStrategy::Circle(center, radius),
        colors,
        chars,
    );
    for p in &sys.particles {
        assert!(center.x - radius <= p.position.x && p.position.x <= center.x + radius);
        assert!(center.y - radius <= p.position.y && p.position.y <= center.y + radius);
    }
}

#[test]
fn spawns_actually_vary() {
    let (colors, chars) = theme();
    let sys = ParticleSystem::new(
        UNIT,
        200,
        Vector2::zero(),
        Vector2::zero(),
        SpawnStrategy::Box(Vector2::zero(), Vector2::new(100 * UNIT, 100 * UNIT)),
        colors,
        chars,
    );
    let first = sys.particles[0].position;
    let all_same = sys.particles.iter().all(|p| p.position == first);
    assert!(!all_same);
    let first_ttl = sys.particles[0].lifetime;
    let same_ttl = sys.particles.iter().all(|p| p.lifetime == first_ttl);
    assert!(!same_ttl);
}

#[test]
fn spawned_lifetimes_scale_from_the_base() {
    let sys = point_system(300);
    let base = UNIT / 2;
    for p in &sys.particles {
        assert_eq!(p.time_left, p.lifetime);
        // scale drawn from [a tenth, nineteen tenths] of a unit
        assert!(base / 10 <= p.lifetime && p.lifetime <= base * 19 / 10);
    }
}

#[test]
fn draw_paints_live_particles_onto_the_screen() {
    let (colors, chars) = theme();
    // one particle pinned at a known cell, not moving
    let sys = ParticleSystem::new(
        UNIT,
        1,
        Vector2::zero(),
        Vector2::zero(),
        SpawnStrategy::Point(Vector2::new(UNIT, 0)),
        colors,
        chars,
    );
    let mut screen = Screen::new(3, 1);
    sys.draw(&mut screen);
    let out = screen.flush();
    // the cell at row 0, col 1 was painted; the others stayed blank
    assert!(out.starts_with("\x1b[0;0H\r \x1b[38;5;"));
    assert!(out.ends_with("\x1b[0m \x1b[1B"));
}

#[test]
fn dead_particles_are_replaced_by_fresh_ones() {
    let mut sys = point_system(30);
    // a dt longer than the longest possible time-to-live kills everything
    let dt = 2 * UNIT;
    sys.tick(dt);
    assert_eq!(sys.particles.len(), 30);
    for p in &sys.particles {
        assert_eq!(p.time_left, p.lifetime);
        assert!(p.time_left > 0);
    }
}
