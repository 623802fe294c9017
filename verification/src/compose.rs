use vstd::prelude::*;

verus! {

use crate::{W, H, OPTIC_HEIGHT};
use crate::optic::{Optic, relative_spec, lemma_interp_between};
use crate::screen::{Screen, compute_spec};
use vstd::arithmetic::div_mod::lemma_mod_bound;

/// What one frame draws for one prism.
pub enum LayerPlan {
    /// The prism is still fully above the visible area: nothing to draw,
    /// the accumulator passes through untouched.
    Above,
    /// The prism has fully passed below the display: only the remapped
    /// accumulator, drawn as a flat full-height band.
    Below(Screen),
    /// The prism is crossing the display: the stack of growth rows drawn
    /// at its leading edge, then the remapped accumulator below them.
    Active { rows: Vec<Screen>, result: Screen },
}

/// The accumulated pattern after folding every prism of `s`, in list
/// order, into `cells`; a prism fully above the visible area leaves the
/// accumulator untouched.
pub open spec fn fold_visible(cells: Seq<bool>, s: Seq<Optic>) -> Seq<bool>
    decreases s.len(),
{
    if s.len() == 0 {
        cells
    } else {
        let pre = fold_visible(cells, s.drop_last());
        if s.last().y < -OPTIC_HEIGHT {
            pre
        } else {
            compute_spec(pre, s.last())
        }
    }
}

/// The snapshot drawn as growth row `j` of a prism's band: row `j` takes
/// progress `OPTIC_HEIGHT - j` modulo the band height, so the top row
/// wraps to the flat state and the rows beneath it run from the most
/// progressed shape down to the flattest drawn step.
pub open spec fn growth_row_optic(o: Optic, j: int) -> Optic {
    relative_spec(o, OPTIC_HEIGHT - j, OPTIC_HEIGHT as int)
}

/// The entry a frame plan must hold at position `k`: the prism's
/// classification by vertical position, with every screen in it derived
/// from the accumulator the earlier prisms left.
pub open spec fn plan_ok(cells: Seq<bool>, optics: Seq<Optic>, k: int, plan: LayerPlan) -> bool {
    let acc = fold_visible(cells, optics.take(k));
    let o = optics[k];
    if o.y < -OPTIC_HEIGHT {
        plan is Above
    } else if o.y >= H {
        plan matches LayerPlan::Below(s) && s.wf() && s@ == compute_spec(acc, o)
    } else {
        plan matches LayerPlan::Active { rows, result } && result.wf() && result@ == compute_spec(
            acc,
            o,
        ) && rows.len() == OPTIC_HEIGHT && forall|j: int|
            0 <= j < OPTIC_HEIGHT ==> (#[trigger] rows[j]).wf() && rows[j]@ == compute_spec(
                acc,
                growth_row_optic(o, j),
            )
    }
}

/// Plans one frame: classifies every prism in list order and threads the
/// accumulator through the fold, so each prism samples the pattern the
/// previous ones produced. List order alone decides visual precedence.
pub fn plan_frame(screen: &Screen, optics: &Vec<Optic>) -> (r: Vec<LayerPlan>)
    requires
        screen.wf(),
        forall|k: int| 0 <= k < optics@.len() ==> (#[trigger] optics@[k]).bounded(),
        forall|k: int| 0 <= k < optics@.len() ==> (#[trigger] optics@[k]).y + OPTIC_HEIGHT
            <= i16::MAX,
    ensures
        r@.len() == optics@.len(),
        forall|k: int| 0 <= k < optics@.len() ==> plan_ok(screen@, optics@, k, #[trigger] r@[k]),
{
    let mut plans: Vec<LayerPlan> = Vec::new();
    let mut acc: Screen = screen.copied();
    let mut i: usize = 0;
    while i < optics.len()
        invariant
            screen.wf(),
            forall|k: int| 0 <= k < optics@.len() ==> (#[trigger] optics@[k]).bounded(),
            forall|k: int| 0 <= k < optics@.len() ==> (#[trigger] optics@[k]).y + OPTIC_HEIGHT
                <= i16::MAX,
            i <= optics@.len(),
            plans@.len() == i,
            acc.wf(),
            acc@ == fold_visible(screen@, optics@.take(i as int)),
            forall|k: int| 0 <= k < i ==> plan_ok(screen@, optics@, k, #[trigger] plans@[k]),
        decreases optics@.len() - i,
    {
        let o = optics[i];
        proof {
            assert(optics@.take(i as int + 1).drop_last() =~= optics@.take(i as int));
        }
        if o.y < -OPTIC_HEIGHT {
            plans.push(LayerPlan::Above);
        } else if o.y >= H {
            acc = acc.compute(&o);
            let snap = acc.copied();
            plans.push(LayerPlan::Below(snap));
        } else {
            let mut rows: Vec<Screen> = Vec::new();
            let mut j: usize = 0;
            while j < OPTIC_HEIGHT as usize
                invariant
                    acc.wf(),
                    o.bounded(),
                    o.y + OPTIC_HEIGHT <= i16::MAX,
                    j <= OPTIC_HEIGHT,
                    rows@.len() == j,
                    forall|jj: int|
                        0 <= jj < j ==> (#[trigger] rows@[jj]).wf() && rows@[jj]@ == compute_spec(
                            acc@,
                            growth_row_optic(o, jj),
                        ),
                decreases OPTIC_HEIGHT - j,
            {
                let prog: i16 = OPTIC_HEIGHT - j as i16;
                proof {
                    lemma_mod_bound(prog as int, OPTIC_HEIGHT as int);
                }
                let rel = o.get_relative(prog, OPTIC_HEIGHT);
                proof {
                    let q = prog as int % (OPTIC_HEIGHT as int);
                    lemma_interp_between(o.x_from as int, o.x_to as int, q, OPTIC_HEIGHT - 1);
                    lemma_interp_between(o.w_from as int, o.w_to as int, q, OPTIC_HEIGHT - 1);
                }
                let row = acc.compute(&rel);
                rows.push(row);
                j = j + 1;
            }
            acc = acc.compute(&o);
            let snap = acc.copied();
            plans.push(LayerPlan::Active { rows, result: snap });
        }
        i = i + 1;
    }
    plans
}

/// One cell of the startup transition: a cell still differing from the
/// target flips to it exactly when the draw is a multiple of ten; every
/// other cell keeps its value.
pub fn transition_cell(current: bool, target: bool, draw: u32) -> (r: bool)
    ensures
        r == (if current != target && draw % 10 == 0 {
            target
        } else {
            current
        }),
{
    if current != target && draw % 10 == 0 {
        target
    } else {
        current
    }
}

/// One animation step of the startup transition: every cell still
/// differing from the target flips to it on a one-in-ten draw, the rest
/// stay. Returns the advanced screen and whether it now equals the target.
pub fn transition_step(
    current: &Screen,
    target: &Screen,
    prng: &mut rand_xoshiro::Xoshiro128StarStar,
) -> (r: (Screen, bool))
    requires
        current.wf(),
        target.wf(),
    ensures
        r.0.wf(),
        forall|i: int|
            0 <= i < W ==> ((#[trigger] r.0@[i]) == current@[i] || r.0@[i] == target@[i]),
        forall|i: int|
            0 <= i < W && current@[i] == target@[i] ==> (#[trigger] r.0@[i]) == current@[i],
        r.1 == (r.0@ == target@),
{
    let mut cells: Vec<bool> = Vec::new();
    let mut all: bool = true;
    let mut i: usize = 0;
    proof {
        assert(cells@ =~= target@.take(0));
    }
    while i < W as usize
        invariant
            current.wf(),
            target.wf(),
            i <= W,
            cells@.len() == i,
            forall|j: int|
                0 <= j < i ==> ((#[trigger] cells@[j]) == current@[j] || cells@[j] == target@[j]),
            forall|j: int|
                0 <= j < i && current@[j] == target@[j] ==> (#[trigger] cells@[j]) == current@[j],
            all == (cells@ == target@.take(i as int)),
        decreases W - i,
    {
        let ghost pre = cells@;
        let c = current.cells[i];
        let t = target.cells[i];
        if c != t {
            let d = crate::rng::next_u32(prng);
            let v = transition_cell(c, t, d);
            cells.push(v);
            if v != t {
                all = false;
            }
        } else {
            cells.push(c);
        }
        proof {
            assert(cells@.drop_last() =~= pre);
            assert(target@.take(i as int + 1).drop_last() =~= target@.take(i as int));
            if cells@ == target@.take(i as int + 1) {
                assert(pre == target@.take(i as int));
            }
            if pre == target@.take(i as int) && cells@.last() == target@[i as int] {
                assert(cells@ =~= target@.take(i as int + 1));
            }
        }
        i = i + 1;
    }
    proof {
        assert(target@.take(W as int) =~= target@);
    }
    (Screen { cells }, all)
}

} // verus!
