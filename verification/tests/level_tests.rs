use sunkey::level::{Level, mk_prism};
use sunkey::optic::Optic;
use sunkey::screen::Screen;
use rand_core::SeedableRng;
use rand_xoshiro::Xoshiro128StarStar;

fn pattern(f: impl Fn(usize) -> bool) -> Screen {
    let cells: Vec<bool> = (0..720).map(f).collect();
    Screen::from_cells(cells)
}

#[test]
fn level_step_advances_every_prism() {
    let mut level = Level::new(vec![
        Optic { x_from: 10, w_from: 100, x_to: 130, w_to: 100, y: -100 },
        Optic { x_from: 110, w_from: 100, x_to: 10, w_to: 100, y: -600 },
    ]);
    level.step();
    assert_eq!(level.optics[0].y, -92);
    assert_eq!(level.optics[1].y, -592);
    assert_eq!(level.optics[0].x_from, 10);
    assert_eq!(level.optics[1].x_to, 10);
}

#[test]
fn level_shift_applies_to_every_prism() {
    let mut level = Level::new(vec![
        Optic { x_from: 10, w_from: 100, x_to: 30, w_to: 40, y: -100 },
        Optic { x_from: 600, w_from: 100, x_to: 500, w_to: 100, y: -600 },
    ]);
    level.shift(30);
    assert_eq!(level.optics[0], Optic { x_from: 40, w_from: 100, x_to: 60, w_to: 40, y: -100 });
    // the second prism hits the right border and is clamped
    assert_eq!(level.optics[1], Optic { x_from: 620, w_from: 100, x_to: 520, w_to: 100, y: -600 });
}

#[test]
fn expire_removes_fallen_prisms_and_bakes_them_in() {
    let fallen = Optic { x_from: 100, w_from: 40, x_to: 300, w_to: 40, y: 1600 };
    let alive = Optic { x_from: 10, w_from: 100, x_to: 130, w_to: 100, y: 100 };
    let mut level = Level::new(vec![fallen, alive]);
    let screen = pattern(|i| i % 7 == 0);
    let (baked, removed) = level.expire(&screen);
    assert!(removed);
    assert_eq!(level.optics.len(), 1);
    assert_eq!(level.optics[0], alive);
    assert_eq!(baked.cells, screen.compute(&fallen).cells);
}

#[test]
fn expire_keeps_prisms_above_bottom() {
    let a = Optic { x_from: 10, w_from: 100, x_to: 130, w_to: 100, y: 1599 };
    let b = Optic { x_from: 110, w_from: 100, x_to: 10, w_to: 100, y: -600 };
    let mut level = Level::new(vec![a, b]);
    let screen = pattern(|i| i % 2 == 0);
    let (baked, removed) = level.expire(&screen);
    assert!(!removed);
    assert_eq!(level.optics.len(), 2);
    assert_eq!(level.optics[0], a);
    assert_eq!(level.optics[1], b);
    assert_eq!(baked.cells, screen.cells);
}

#[test]
fn expire_folds_several_in_list_order() {
    let first = Optic { x_from: 0, w_from: 2, x_to: 0, w_to: 720, y: 1700 };
    let second = Optic { x_from: 100, w_from: 40, x_to: 300, w_to: 40, y: 1601 };
    let mut level = Level::new(vec![first, second]);
    let screen = pattern(|i| i % 5 == 0);
    let (baked, removed) = level.expire(&screen);
    assert!(removed);
    assert!(level.optics.is_empty());
    let expected = screen.compute(&first).compute(&second);
    assert_eq!(baked.cells, expected.cells);
}

#[test]
fn spawned_prism_starts_above_display() {
    let mut rng = Xoshiro128StarStar::seed_from_u64(123);
    for _ in 0..20 {
        let o = mk_prism(&mut rng);
        assert_eq!(o.y, -100);
        assert!(o.w_from >= 1 && o.w_from <= 239);
        assert!(o.w_to >= 1 && o.w_to <= 239);
        assert!(o.x_from >= -120 && o.x_from < 720);
        assert!(o.x_to >= -120 && o.x_to < 720);
        assert!((o.x_from as i32) + (o.w_from as i32) <= 840);
        assert!((o.x_to as i32) + (o.w_to as i32) <= 840);
    }
}

#[test]
fn spawn_appends_one_prism() {
    let mut rng = Xoshiro128StarStar::seed_from_u64(7);
    let existing = Optic { x_from: 10, w_from: 100, x_to: 130, w_to: 100, y: 100 };
    let mut level = Level::new(vec![existing]);
    level.spawn(&mut rng);
    assert_eq!(level.optics.len(), 2);
    assert_eq!(level.optics[0], existing);
    assert_eq!(level.optics[1].y, -100);
}
