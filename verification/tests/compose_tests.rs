use sunkey::compose::{plan_frame, transition_cell, transition_step, LayerPlan};
use sunkey::optic::Optic;
use sunkey::screen::Screen;
use rand_core::SeedableRng;
use rand_xoshiro::Xoshiro128StarStar;

fn pattern(f: impl Fn(usize) -> bool) -> Screen {
    let cells: Vec<bool> = (0..720).map(f).collect();
    Screen::from_cells(cells)
}

#[test]
fn plan_classifies_by_vertical_position() {
    let screen = pattern(|i| i % 7 == 0);
    let high = Optic { x_from: 10, w_from: 100, x_to: 130, w_to: 100, y: -200 };
    let low = Optic { x_from: 100, w_from: 40, x_to: 300, w_to: 40, y: 1700 };
    let crossing = Optic { x_from: 110, w_from: 100, x_to: 10, w_to: 100, y: 0 };
    let optics = vec![high, low, crossing];
    let plans = plan_frame(&screen, &optics);
    assert_eq!(plans.len(), 3);

    assert!(matches!(plans[0], LayerPlan::Above));

    // the prism above the display leaves the accumulator untouched, so the
    // fallen one samples the original background
    let after_low = screen.compute(&low);
    match &plans[1] {
        LayerPlan::Below(s) => assert_eq!(s.cells, after_low.cells),
        _ => panic!("expected a flat layer"),
    }

    // the crossing prism samples the fallen one's output
    match &plans[2] {
        LayerPlan::Active { rows, result } => {
            assert_eq!(result.cells, after_low.compute(&crossing).cells);
            assert_eq!(rows.len(), 100);
            // top row: progress 100 wraps to 0, the flat snapshot
            let top = after_low.compute(&crossing.get_relative(100, 100));
            assert_eq!(rows[0].cells, top.cells);
            // bottom row: progress 1, the flattest drawn step
            let bottom = after_low.compute(&crossing.get_relative(1, 100));
            assert_eq!(rows[99].cells, bottom.cells);
        }
        _ => panic!("expected a growth layer"),
    }
}

#[test]
fn plan_skips_nothing_when_all_visible() {
    let screen = pattern(|i| i % 2 == 0);
    let a = Optic { x_from: 10, w_from: 100, x_to: 130, w_to: 100, y: 0 };
    let b = Optic { x_from: 110, w_from: 100, x_to: 10, w_to: 100, y: 500 };
    let optics = vec![a, b];
    let plans = plan_frame(&screen, &optics);
    assert_eq!(plans.len(), 2);
    let after_a = screen.compute(&a);
    match (&plans[0], &plans[1]) {
        (
            LayerPlan::Active { result: ra, .. },
            LayerPlan::Active { result: rb, .. },
        ) => {
            assert_eq!(ra.cells, after_a.cells);
            assert_eq!(rb.cells, after_a.compute(&b).cells);
        }
        _ => panic!("expected two growth layers"),
    }
}

#[test]
fn transition_is_done_at_the_target() {
    let mut rng = Xoshiro128StarStar::seed_from_u64(123);
    let target = pattern(|i| i % 3 == 0);
    let (next, done) = transition_step(&target, &target, &mut rng);
    assert!(done);
    assert_eq!(next.cells, target.cells);
}

#[test]
fn transition_only_flips_toward_the_target() {
    let mut rng = Xoshiro128StarStar::seed_from_u64(123);
    let current = Screen::blank();
    let target = pattern(|_| true);
    let (next, done) = transition_step(&current, &target, &mut rng);
    assert_eq!(next.cells.len(), 720);
    assert_eq!(done, next.cells == target.cells);
    for i in 0..720 {
        assert!(next.cells[i] == current.cells[i] || next.cells[i] == target.cells[i]);
    }
}

#[test]
fn transition_reaches_the_target() {
    let mut rng = Xoshiro128StarStar::seed_from_u64(42);
    let target = pattern(|i| (i / 10) % 2 == 0);
    let mut screen = Screen::blank();
    let mut done = false;
    let mut steps = 0;
    while !done && steps < 10_000 {
        let (next, d) = transition_step(&screen, &target, &mut rng);
        screen = next;
        done = d;
        steps += 1;
    }
    assert!(done);
    assert_eq!(screen.cells, target.cells);
}

#[test]
fn transition_cell_flips_only_on_a_tenth_draw() {
    assert_eq!(transition_cell(false, true, 0), true);
    assert_eq!(transition_cell(false, true, 20), true);
    assert_eq!(transition_cell(false, true, 3), false);
    assert_eq!(transition_cell(true, false, 10), false);
    assert_eq!(transition_cell(true, false, 11), true);
    assert_eq!(transition_cell(true, true, 0), true);
    assert_eq!(transition_cell(false, false, 0), false);
}
