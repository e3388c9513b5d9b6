use glowgrid::gradient::{Gradient, GradientEntry};
use glowgrid::units::UNIT;

#[test]
fn equal_spacing_thresholds_and_lookup() {
    let g = Gradient::with_equal_spacing(vec!['a', 'b', 'c']);
    // thresholds are UNIT/3, 2*UNIT/3, UNIT: 333333, 666666, 1000000
    assert_eq!(*g.get_value(0), 'a');
    assert_eq!(*g.get_value(333_333), 'a');
    assert_eq!(*g.get_value(340_000), 'b');
    assert_eq!(*g.get_value(UNIT), 'c');
    assert_eq!(*g.get_value(5 * UNIT), 'c');
}

#[test]
fn lookup_beyond_all_thresholds_gives_last() {
    let g = Gradient::with_equal_spacing(vec![10u8, 20u8]);
    assert_eq!(*g.get_value(2 * UNIT), 20u8);
    assert_eq!(*g.get_value(i64::MAX), 20u8);
}

#[test]
fn new_sorts_entries_ascending() {
    let entries = vec![
        GradientEntry::new(900_000, 'z'),
        GradientEntry::new(100_000, 'a'),
        GradientEntry::new(500_000, 'm'),
    ];
    let g = Gradient::new(entries);
    assert_eq!(*g.get_value(0), 'a');
    assert_eq!(*g.get_value(100_000), 'a');
    assert_eq!(*g.get_value(100_001), 'm');
    assert_eq!(*g.get_value(500_001), 'z');
    assert_eq!(*g.get_value(2_000_000), 'z');
}

#[test]
fn tied_thresholds_keep_input_order() {
    let entries = vec![
        GradientEntry::new(500_000, 'x'),
        GradientEntry::new(500_000, 'y'),
        GradientEntry::new(200_000, 'w'),
    ];
    let g = Gradient::new(entries);
    assert_eq!(*g.get_value(400_000), 'x');
}

#[test]
fn single_entry_gradient_always_answers() {
    let g = Gradient::new(vec![GradientEntry::new(0, "only".to_string())]);
    assert_eq!(g.get_value(0), "only");
    assert_eq!(g.get_value(i64::MAX), "only");
}

#[test]
fn string_gradient_for_colors() {
    let g = Gradient::with_equal_spacing(vec!["18".to_string(), "44".to_string()]);
    assert_eq!(g.get_value(0), "18");
    assert_eq!(g.get_value(UNIT / 2), "18");
    assert_eq!(g.get_value(UNIT / 2 + 1), "44");
    assert_eq!(g.get_value(UNIT), "44");
}
