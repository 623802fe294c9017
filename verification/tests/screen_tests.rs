use sunkey::optic::Optic;
use sunkey::screen::{generate_screen, screen_from_draws, Screen};
use rand_core::SeedableRng;
use rand_xoshiro::Xoshiro128StarStar;

fn pattern(f: impl Fn(usize) -> bool) -> Screen {
    let cells: Vec<bool> = (0..720).map(f).collect();
    Screen::from_cells(cells)
}

#[test]
fn identity_optic_keeps_buffer() {
    let s = pattern(|i| i % 3 == 0);
    let identity = Optic { x_from: 0, w_from: 720, x_to: 0, w_to: 720, y: 0 };
    let out = s.compute(&identity);
    assert_eq!(out.cells, s.cells);
}

#[test]
fn compute_stretches_source_interval() {
    // two source columns stretched over the whole row: the left half shows
    // column 0, the right half column 1
    let s = pattern(|i| i == 0);
    let o = Optic { x_from: 0, w_from: 2, x_to: 0, w_to: 720, y: 0 };
    let out = s.compute(&o);
    assert!(out.cells[0]);
    assert!(out.cells[359]);
    assert!(!out.cells[360]);
    assert!(!out.cells[719]);
}

#[test]
fn compute_reads_each_region_through_its_mapping() {
    let s = pattern(|i| i % 7 == 0);
    let o = Optic { x_from: 100, w_from: 40, x_to: 300, w_to: 40, y: 0 };
    let out = s.compute(&o);
    // inside the prism: column 300 + k reads column 100 + k
    assert_eq!(out.cells[300], s.cells[100]);
    assert_eq!(out.cells[339], s.cells[139]);
    // left of the prism: [0, 300) is [0, 100) stretched threefold
    assert_eq!(out.cells[150], s.cells[50]);
    assert_eq!(out.cells[299], s.cells[99]);
    assert_eq!(out.cells[0], s.cells[0]);
    // right of the prism: [340, 720) maps back onto [140, 720)
    assert_eq!(out.cells[340], s.cells[140]);
    assert_eq!(out.cells[719], s.cells[718]);
}

#[test]
fn compute_wraps_mapped_columns() {
    // a source interval hanging off the left edge: column 0 maps to -2,
    // which wraps to 718
    let s = pattern(|i| i == 718);
    let o = Optic { x_from: -2, w_from: 5, x_to: 0, w_to: 720, y: 0 };
    let out = s.compute(&o);
    assert!(out.cells[0]);
}

#[test]
fn compute_leaves_input_untouched() {
    let s = pattern(|i| i % 2 == 0);
    let before = s.cells.clone();
    let o = Optic { x_from: 100, w_from: 40, x_to: 300, w_to: 40, y: 0 };
    let _ = s.compute(&o);
    assert_eq!(s.cells, before);
}

#[test]
fn runs_of_constant_row_is_one_band() {
    let lit = pattern(|_| true);
    let r = lit.runs();
    assert_eq!(r.len(), 1);
    assert_eq!(r[0].start, 0);
    assert_eq!(r[0].end, 720);
    assert!(r[0].value);

    let dark = Screen::blank();
    let r = dark.runs();
    assert_eq!(r.len(), 1);
    assert_eq!(r[0].start, 0);
    assert_eq!(r[0].end, 720);
    assert!(!r[0].value);
}

#[test]
fn runs_split_at_value_changes() {
    let s = pattern(|i| i < 10);
    let r = s.runs();
    assert_eq!(r.len(), 2);
    assert_eq!((r[0].start, r[0].end, r[0].value), (0, 10, true));
    assert_eq!((r[1].start, r[1].end, r[1].value), (10, 720, false));
}

#[test]
fn runs_cover_row_in_order() {
    let s = pattern(|i| (i / 10) % 2 == 0);
    let r = s.runs();
    assert_eq!(r.len(), 72);
    let mut at = 0;
    for (k, run) in r.iter().enumerate() {
        assert_eq!(run.start, at);
        assert!(run.start < run.end);
        assert_eq!(run.value, k % 2 == 0);
        for j in run.start..run.end {
            assert_eq!(s.cells[j], run.value);
        }
        at = run.end;
    }
    assert_eq!(at, 720);
}

#[test]
fn blank_screen_is_dark() {
    let s = Screen::blank();
    assert_eq!(s.cells.len(), 720);
    assert!(s.cells.iter().all(|c| !c));
}

#[test]
fn generated_background_is_striped() {
    let mut rng = Xoshiro128StarStar::seed_from_u64(123);
    let s = generate_screen(&mut rng);
    assert_eq!(s.cells.len(), 720);
    for i in 1..720 {
        if i % 10 != 0 {
            assert_eq!(s.cells[i], s.cells[i - 1]);
        }
    }
}

#[test]
fn stripes_follow_draw_parity() {
    // stripe k is lit exactly when draw k is odd
    let draws: Vec<u32> = (0..72).collect();
    let s = screen_from_draws(&draws);
    assert_eq!(s.cells.len(), 720);
    for i in 0..720 {
        assert_eq!(s.cells[i], (i / 10) % 2 == 1);
    }
    let even: Vec<u32> = vec![2; 72];
    assert!(screen_from_draws(&even).cells.iter().all(|c| !c));
    let odd: Vec<u32> = vec![7; 72];
    assert!(screen_from_draws(&odd).cells.iter().all(|c| *c));
}
