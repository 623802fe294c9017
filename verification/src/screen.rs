use vstd::prelude::*;

verus! {

use crate::{W, LINE_W};
use crate::optic::{Optic, tdiv};
use vstd::arithmetic::div_mod::{
    lemma_basic_div,
    lemma_div_by_multiple,
    lemma_div_pos_is_pos,
    lemma_fundamental_div_mod,
    lemma_fundamental_div_mod_converse,
    lemma_mod_bound,
    lemma_multiply_divide_le,
    lemma_multiply_divide_lt,
    lemma_small_mod,
};

/// One horizontal scanline's pattern: cell `i` says whether column `i`
/// is lit. Always exactly `W` cells long.
pub struct Screen {
    pub cells: Vec<bool>,
}

impl View for Screen {
    type V = Seq<bool>;

    open spec fn view(&self) -> Seq<bool> {
        self.cells@
    }
}

/// The input column that output column `i` reads when the source interval
/// `[x_from, x_from + w_from)` is linearly re-projected onto the
/// destination interval `[x_to, x_to + w_to)`, wrapped onto the buffer.
pub open spec fn map_interval(x_from: int, w_from: int, x_to: int, w_to: int, i: int) -> int {
    (x_from + tdiv((i - x_to) * w_from, w_to)) % (W as int)
}

/// What the remapped row holds at column `i`: the prism's own mapping
/// inside the destination interval, the left or right complement mapping
/// beside it, and the untouched cell where no region applies (only
/// column 0 with a prism strictly to its right).
pub open spec fn compute_pixel_spec(cells: Seq<bool>, o: Optic, i: int) -> bool {
    if o.x_to <= i < o.x_to + o.w_to {
        cells[map_interval(o.x_from as int, o.w_from as int, o.x_to as int, o.w_to as int, i)]
    } else if 0 < i < o.x_to {
        cells[map_interval(0, o.x_from as int, 0, o.x_to as int, i)]
    } else if o.x_to + o.w_to <= i < W {
        cells[map_interval(
            o.x_from + o.w_from,
            W - (o.x_from + o.w_from),
            o.x_to + o.w_to,
            W - (o.x_to + o.w_to),
            i,
        )]
    } else {
        cells[i]
    }
}

/// The whole remapped row.
pub open spec fn compute_spec(cells: Seq<bool>, o: Optic) -> Seq<bool> {
    Seq::new(W as nat, |i: int| compute_pixel_spec(cells, o, i))
}

/// Euclidean wrap of a column index onto `[0, W)`.
fn wrap_index(x: i64) -> (r: usize)
    requires
        -0x4000_0000_0000 <= x <= 0x4000_0000_0000,
    ensures
        r == x as int % (W as int),
        r < W,
{
    let w: u64 = W as u64;
    if x >= 0 {
        let m: u64 = (x as u64) % w;
        proof {
            lemma_mod_bound(x as int, W as int);
        }
        m as usize
    } else {
        let a: u64 = (-x) as u64;
        let mm: u64 = a % w;
        proof {
            lemma_mod_bound(a as int, W as int);
            lemma_fundamental_div_mod(a as int, W as int);
            if mm == 0 {
                lemma_fundamental_div_mod_converse(
                    x as int,
                    W as int,
                    -(a as int / W as int),
                    0,
                );
            } else {
                lemma_fundamental_div_mod_converse(
                    x as int,
                    W as int,
                    -(a as int / W as int) - 1,
                    W - mm,
                );
            }
        }
        if mm == 0 {
            0
        } else {
            (w - mm) as usize
        }
    }
}

impl Screen {
    /// Exactly one cell per display column.
    pub open spec fn wf(self) -> bool {
        self.cells@.len() == W
    }

    /// A screen over the given cells.
    pub fn from_cells(cells: Vec<bool>) -> (r: Screen)
        requires
            cells@.len() == W,
        ensures
            r.wf(),
            r@ == cells@,
    {
        Screen { cells }
    }

    /// The all-dark screen.
    pub fn blank() -> (r: Screen)
        ensures
            r.wf(),
            forall|i: int| 0 <= i < W ==> r@[i] == false,
    {
        let mut cells: Vec<bool> = Vec::new();
        let mut i: usize = 0;
        while i < W as usize
            invariant
                i <= W,
                cells@.len() == i,
                forall|j: int| 0 <= j < i ==> cells@[j] == false,
            decreases W - i,
        {
            cells.push(false);
            i = i + 1;
        }
        Screen { cells }
    }

    /// An independent copy of this screen.
    pub fn copied(&self) -> (r: Screen)
        ensures
            r@ == self@,
    {
        let mut cells: Vec<bool> = Vec::new();
        let mut i: usize = 0;
        while i < self.cells.len()
            invariant
                i <= self@.len(),
                cells@.len() == i,
                forall|j: int| 0 <= j < i ==> cells@[j] == self@[j],
            decreases self@.len() - i,
        {
            cells.push(self.cells[i]);
            i = i + 1;
        }
        let r = Screen { cells };
        proof {
            assert(r@ =~= self@);
        }
        r
    }

    /// The remapped cell for an output column known to lie in the
    /// destination interval of `opt`: reads the linearly mapped input
    /// column, wrapped onto the buffer.
    pub fn compute_pixel_raw(&self, opt: &Optic, i: usize) -> (r: bool)
        requires
            self.wf(),
            opt.x_to <= i,
            i < opt.x_to + opt.w_to,
        ensures
            r == self@[map_interval(
                opt.x_from as int,
                opt.w_from as int,
                opt.x_to as int,
                opt.w_to as int,
                i as int,
            )],
    {
        let ii: i64 = i as i64;
        let xt: i64 = opt.x_to as i64;
        let wf_src: i64 = opt.w_from as i64;
        let wt: i64 = opt.w_to as i64;
        proof {
            assert(-0x1_0000_0000 <= (ii - xt) * wf_src <= 0x1_0000_0000) by (nonlinear_arith)
                requires
                    0 <= ii - xt <= 0x10000,
                    -0x8000 <= wf_src <= 0x8000,
            ;
        }
        let num: i64 = (ii - xt) * wf_src;
        let q: i64 = if num >= 0 {
            proof {
                lemma_div_pos_is_pos(num as int, wt as int);
                assert(num <= wt * num) by (nonlinear_arith)
                    requires
                        0 <= num,
                        1 <= wt,
                ;
                lemma_multiply_divide_le(num as int, wt as int, num as int);
            }
            ((num as u64) / (wt as u64)) as i64
        } else {
            proof {
                lemma_div_pos_is_pos(-num as int, wt as int);
                assert(-num <= wt * -num) by (nonlinear_arith)
                    requires
                        0 <= -num,
                        1 <= wt,
                ;
                lemma_multiply_divide_le(-num as int, wt as int, -num as int);
            }
            -((((-num) as u64) / (wt as u64)) as i64)
        };
        let rel: i64 = opt.x_from as i64 + q;
        let idx: usize = wrap_index(rel);
        self.cells[idx]
    }

    /// The remapped cell for any output column: selects the prism mapping
    /// or one of the two complement mappings by the region `i` falls in.
    pub fn compute_pixel(&self, opt: &Optic, i: usize) -> (r: bool)
        requires
            self.wf(),
            opt.bounded(),
            i < W,
        ensures
            r == compute_pixel_spec(self@, *opt, i as int),
    {
        let ii: i32 = i as i32;
        let x_to: i32 = opt.x_to as i32;
        let w_to: i32 = opt.w_to as i32;
        let is_in = ii >= x_to && ii < w_to + x_to;
        let is_left = ii > 0 && ii < x_to;
        let is_right = ii < W as i32 && ii >= w_to + x_to;

        if is_in {
            self.compute_pixel_raw(opt, i)
        } else if is_left {
            self.compute_pixel_raw(&opt.get_left_complement(), i)
        } else if is_right {
            self.compute_pixel_raw(&opt.get_right_complement(), i)
        } else {
            self.cells[i]
        }
    }

    /// The whole row remapped through `opt`. Never mutates its input;
    /// every output column is computed independently.
    pub fn compute(&self, opt: &Optic) -> (r: Screen)
        requires
            self.wf(),
            opt.bounded(),
        ensures
            r.wf(),
            r@ == compute_spec(self@, *opt),
    {
        let mut cells: Vec<bool> = Vec::new();
        let mut i: usize = 0;
        while i < W as usize
            invariant
                self.wf(),
                opt.bounded(),
                i <= W,
                cells@.len() == i,
                forall|j: int| 0 <= j < i ==> cells@[j] == compute_pixel_spec(self@, *opt, j),
            decreases W - i,
        {
            let px = self.compute_pixel(opt, i);
            cells.push(px);
            i = i + 1;
        }
        let r = Screen { cells };
        proof {
            assert(r@ =~= compute_spec(self@, *opt));
        }
        r
    }
}

/// One horizontal band of equal cells: columns `[start, end)` all hold
/// `value`.
#[derive(Clone, Copy, PartialEq, Eq, Structural, Debug)]
pub struct Run {
    pub start: usize,
    pub end: usize,
    pub value: bool,
}

/// `runs` is the run-length decomposition of `cells`: maximal spans of
/// equal cells, in order, covering the whole row with no gap, each span
/// non-empty and differing in value from its neighbour.
pub open spec fn is_rle(runs: Seq<Run>, cells: Seq<bool>) -> bool {
    &&& runs.len() >= 1
    &&& runs[0].start == 0
    &&& runs[runs.len() - 1].end == cells.len()
    &&& forall|k: int| 0 <= k < runs.len() ==> (#[trigger] runs[k]).start < runs[k].end <= cells.len()
    &&& forall|k: int|
        1 <= k < runs.len() ==> (#[trigger] runs[k]).start == runs[k - 1].end && runs[k].value
            != runs[k - 1].value
    &&& forall|k: int, j: int|
        #![trigger runs[k], cells[j]]
        0 <= k < runs.len() && runs[k].start <= j < runs[k].end ==> cells[j] == runs[k].value
}

impl Screen {
    /// The row compressed into maximal bands of equal value, left to
    /// right: what the renderer draws as one rectangle each.
    pub fn runs(&self) -> (r: Vec<Run>)
        requires
            self.wf(),
        ensures
            is_rle(r@, self@),
    {
        let mut out: Vec<Run> = Vec::new();
        let mut last_flag: bool = self.cells[0];
        let mut first_cell: usize = 0;
        let mut i: usize = 1;
        while i < W as usize
            invariant
                self.wf(),
                0 <= first_cell < i <= W,
                forall|j: int| first_cell <= j < i ==> self@[j] == last_flag,
                out@.len() == 0 ==> first_cell == 0,
                out@.len() >= 1 ==> out@[0].start == 0 && out@[out@.len() - 1].end == first_cell
                    && out@[out@.len() - 1].value != last_flag,
                forall|k: int|
                    0 <= k < out@.len() ==> (#[trigger] out@[k]).start < out@[k].end <= first_cell,
                forall|k: int|
                    1 <= k < out@.len() ==> (#[trigger] out@[k]).start == out@[k - 1].end
                        && out@[k].value != out@[k - 1].value,
                forall|k: int, j: int|
                    #![trigger out@[k], self@[j]]
                    0 <= k < out@.len() && out@[k].start <= j < out@[k].end ==> self@[j]
                        == out@[k].value,
            decreases W - i,
        {
            let flag = self.cells[i];
            if flag != last_flag {
                out.push(Run { start: first_cell, end: i, value: last_flag });
                first_cell = i;
                last_flag = flag;
            }
            i = i + 1;
        }
        out.push(Run { start: first_cell, end: W as usize, value: last_flag });
        out
    }
}

/// A constant row compresses to exactly one band covering the full width.
pub proof fn lemma_runs_of_constant(runs: Seq<Run>, cells: Seq<bool>)
    requires
        is_rle(runs, cells),
        cells.len() > 0,
        forall|i: int, j: int|
            0 <= i < cells.len() && 0 <= j < cells.len() ==> cells[i] == cells[j],
    ensures
        runs.len() == 1,
        runs[0].start == 0,
        runs[0].end == cells.len(),
        runs[0].value == cells[0],
{
    if runs.len() >= 2 {
        assert(cells[runs[0].start as int] == runs[0].value);
        assert(cells[runs[1].start as int] == runs[1].value);
        assert(false);
    }
    assert(cells[runs[0].start as int] == runs[0].value);
}

/// Column `i` lies left of the destination interval.
pub open spec fn in_left(o: Optic, i: int) -> bool {
    0 <= i < o.x_to
}

/// Column `i` lies inside the destination interval.
pub open spec fn in_prism(o: Optic, i: int) -> bool {
    o.x_to <= i < o.x_to + o.w_to
}

/// Column `i` lies right of the destination interval.
pub open spec fn in_right(o: Optic, i: int) -> bool {
    o.x_to + o.w_to <= i < W
}

/// For a well-formed prism the three regions partition the display: every
/// column falls in exactly one, and the remapped row reads the column
/// through exactly that region's mapping. (Column 0 left of a prism reads
/// the untouched cell, which is what the left complement maps it from.)
pub proof fn lemma_partition(cells: Seq<bool>, o: Optic, i: int)
    requires
        o.wf(),
        cells.len() == W,
        0 <= i < W,
    ensures
        in_left(o, i) || in_prism(o, i) || in_right(o, i),
        !(in_left(o, i) && in_prism(o, i)),
        !(in_left(o, i) && in_right(o, i)),
        !(in_prism(o, i) && in_right(o, i)),
        in_prism(o, i) ==> compute_pixel_spec(cells, o, i) == cells[map_interval(
            o.x_from as int,
            o.w_from as int,
            o.x_to as int,
            o.w_to as int,
            i,
        )],
        in_left(o, i) ==> compute_pixel_spec(cells, o, i) == cells[map_interval(
            0,
            o.x_from as int,
            0,
            o.x_to as int,
            i,
        )],
        in_right(o, i) ==> compute_pixel_spec(cells, o, i) == cells[map_interval(
            o.x_from + o.w_from,
            W - (o.x_from + o.w_from),
            o.x_to + o.w_to,
            W - (o.x_to + o.w_to),
            i,
        )],
{
    if in_left(o, i) && i == 0 {
        // the spec falls through to the untouched cell; the left
        // complement maps column 0 from column 0, the same cell
        lemma_basic_div(0, o.x_to as int);
        lemma_small_mod(0nat, W as nat);
        assert((0 - 0) * (o.x_from as int) == 0);
        assert(map_interval(0, o.x_from as int, 0, o.x_to as int, 0) == 0);
    }
}

/// The background a fixed sequence of draws determines: stripe `k`, the
/// columns `[k * LINE_W, (k + 1) * LINE_W)`, is lit exactly when draw `k`
/// is odd.
pub fn screen_from_draws(draws: &Vec<u32>) -> (r: Screen)
    requires
        draws@.len() == (W / LINE_W) as nat,
    ensures
        r.wf(),
        forall|i: int|
            0 <= i < W ==> #[trigger] r@[i] == (draws@[i / (LINE_W as int)] % 2 == 1),
{
    let mut cells: Vec<bool> = Vec::new();
    let mut i: usize = 0;
    while i < W as usize
        invariant
            draws@.len() == (W / LINE_W) as nat,
            i <= W,
            cells@.len() == i,
            forall|j: int|
                0 <= j < i ==> #[trigger] cells@[j] == (draws@[j / (LINE_W as int)] % 2 == 1),
        decreases W - i,
    {
        proof {
            lemma_multiply_divide_lt(i as int, LINE_W as int, (W / LINE_W) as int);
        }
        let d = draws[i / (LINE_W as usize)];
        cells.push(d % 2 == 1);
        i = i + 1;
    }
    Screen { cells }
}

/// The freshly generated background: one draw of the generator per
/// stripe of `LINE_W` columns, each stripe lit when its draw is odd (see
/// `screen_from_draws`), so the pattern is constant within every stripe.
pub fn generate_screen(prng: &mut rand_xoshiro::Xoshiro128StarStar) -> (r: Screen)
    ensures
        r.wf(),
        forall|i: int| 0 < i < W && i % (LINE_W as int) != 0 ==> #[trigger] r@[i] == r@[i - 1],
{
    let mut draws: Vec<u32> = Vec::new();
    let mut k: usize = 0;
    while k < W as usize / LINE_W as usize
        invariant
            k <= W / LINE_W,
            draws@.len() == k,
        decreases W / LINE_W - k,
    {
        draws.push(crate::rng::next_u32(prng));
        k = k + 1;
    }
    let r = screen_from_draws(&draws);
    proof {
        assert forall|i: int| 0 < i < W && i % (LINE_W as int) != 0 implies #[trigger] r@[i]
            == r@[i - 1] by {
            lemma_fundamental_div_mod(i, LINE_W as int);
            lemma_mod_bound(i, LINE_W as int);
            lemma_fundamental_div_mod_converse(
                i - 1,
                LINE_W as int,
                i / (LINE_W as int),
                i % (LINE_W as int) - 1,
            );
        }
    }
    r
}

/// Remapping through the identity prism, whose source and destination
/// intervals are both the whole display, returns the buffer unchanged.
pub proof fn lemma_compute_identity(cells: Seq<bool>, y: i16)
    requires
        cells.len() == W,
    ensures
        compute_spec(cells, Optic { x_from: 0, w_from: W, x_to: 0, w_to: W, y: y }) == cells,
{
    let o = Optic { x_from: 0, w_from: W, x_to: 0, w_to: W, y: y };
    assert forall|i: int| 0 <= i < W implies compute_pixel_spec(cells, o, i) == cells[i] by {
        lemma_div_by_multiple(i, W as int);
        lemma_small_mod(i as nat, W as nat);
        assert((i - 0) * (W as int) == i * (W as int));
    }
    assert(compute_spec(cells, o) =~= cells);
}

} // verus!
