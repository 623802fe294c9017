use vstd::prelude::*;

verus! {

use crate::{W, H, SPEED, OPTIC_HEIGHT};
use crate::optic::{Optic, shift_clamped};
use crate::screen::{Screen, compute_spec};

/// An ordered collection of active prisms. The order is the z-order: the
/// compositing fold samples earlier prisms' output, so later entries are
/// painted over earlier ones.
pub struct Level {
    pub optics: Vec<Optic>,
}

/// The prisms of `s` still above the bottom of the display, in order.
pub open spec fn keep_alive(s: Seq<Optic>) -> Seq<Optic>
    decreases s.len(),
{
    if s.len() == 0 {
        Seq::empty()
    } else {
        let pre = keep_alive(s.drop_last());
        if s.last().y < H {
            pre.push(s.last())
        } else {
            pre
        }
    }
}

/// The persistent background after folding in, in list order, the mapping
/// of every prism of `s` that has left the display.
pub open spec fn fold_expired(cells: Seq<bool>, s: Seq<Optic>) -> Seq<bool>
    decreases s.len(),
{
    if s.len() == 0 {
        cells
    } else {
        let pre = fold_expired(cells, s.drop_last());
        if s.last().y >= H {
            compute_spec(pre, s.last())
        } else {
            pre
        }
    }
}

/// The source or destination width a raw draw of the generator yields: a
/// value below a third of the display width, clamped up to one column.
pub open spec fn width_from_draw(d: u32) -> int {
    let m = d as int % (W as int / 3);
    if m == 0 {
        1
    } else {
        m
    }
}

impl Level {
    /// Every prism the level holds is within one display width and can
    /// always be clamped back by a horizontal shift.
    pub open spec fn geom_ok(self) -> bool {
        forall|k: int|
            0 <= k < self.optics@.len() ==> (#[trigger] self.optics@[k]).bounded()
                && self.optics@[k].shiftable()
    }

    /// Every prism lies above row `bound`.
    pub open spec fn all_above(self, bound: int) -> bool {
        forall|k: int| 0 <= k < self.optics@.len() ==> (#[trigger] self.optics@[k]).y < bound
    }

    /// A level over the given prisms.
    pub fn new(optics: Vec<Optic>) -> (r: Level)
        ensures
            r.optics@ == optics@,
    {
        Level { optics }
    }

    /// One simulation step: every prism falls by the constant velocity.
    pub fn step(&mut self)
        requires
            old(self).all_above(H as int),
        ensures
            final(self).optics@.len() == old(self).optics@.len(),
            forall|k: int|
                0 <= k < old(self).optics@.len() ==> final(self).optics@[k] == (Optic {
                    y: (old(self).optics@[k].y + SPEED) as i16,
                    ..old(self).optics@[k]
                }),
            old(self).geom_ok() ==> final(self).geom_ok(),
            final(self).all_above(H + SPEED),
    {
        let mut out: Vec<Optic> = Vec::new();
        let mut i: usize = 0;
        while i < self.optics.len()
            invariant
                self.optics@ == old(self).optics@,
                old(self).all_above(H as int),
                i <= self.optics@.len(),
                out@.len() == i,
                forall|k: int|
                    0 <= k < i ==> out@[k] == (Optic {
                        y: (old(self).optics@[k].y + SPEED) as i16,
                        ..old(self).optics@[k]
                    }),
            decreases self.optics@.len() - i,
        {
            let o = self.optics[i];
            out.push(o.step());
            i = i + 1;
        }
        self.optics = out;
    }

    /// Slides every prism horizontally by `delta`, clamped back onto the
    /// display with its widths preserved.
    pub fn shift(&mut self, delta: i16)
        requires
            old(self).geom_ok(),
        ensures
            final(self).optics@.len() == old(self).optics@.len(),
            forall|k: int|
                0 <= k < old(self).optics@.len() ==> {
                    let o = old(self).optics@[k];
                    let n = #[trigger] final(self).optics@[k];
                    &&& n.x_from == shift_clamped(o, delta as int).0
                    &&& n.x_to == shift_clamped(o, delta as int).1
                    &&& n.w_from == o.w_from
                    &&& n.w_to == o.w_to
                    &&& n.y == o.y
                    &&& 0 <= n.x_from
                    &&& 0 <= n.x_to
                    &&& n.x_from + n.w_from <= W
                    &&& n.x_to + n.w_to <= W
                },
            final(self).geom_ok(),
    {
        let mut out: Vec<Optic> = Vec::new();
        let mut i: usize = 0;
        while i < self.optics.len()
            invariant
                self.optics@ == old(self).optics@,
                old(self).geom_ok(),
                i <= self.optics@.len(),
                out@.len() == i,
                forall|k: int|
                    0 <= k < i ==> {
                        let o = old(self).optics@[k];
                        let n = #[trigger] out@[k];
                        &&& n.x_from == shift_clamped(o, delta as int).0
                        &&& n.x_to == shift_clamped(o, delta as int).1
                        &&& n.w_from == o.w_from
                        &&& n.w_to == o.w_to
                        &&& n.y == o.y
                        &&& 0 <= n.x_from
                        &&& 0 <= n.x_to
                        &&& n.x_from + n.w_from <= W
                        &&& n.x_to + n.w_to <= W
                        &&& n.bounded()
                        &&& n.shiftable()
                    },
            decreases self.optics@.len() - i,
        {
            let o = self.optics[i];
            out.push(o.shift(delta));
            i = i + 1;
        }
        self.optics = out;
    }

    /// The removal half of the lifecycle pass: drops every prism that has
    /// reached the bottom of the display, folding each one's mapping — in
    /// list order — into the persistent background exactly once. Returns
    /// the new background and whether anything was dropped (so the caller
    /// knows a replacement should spawn). A dropped prism is gone: every
    /// prism still held afterwards lies strictly above the bottom.
    pub fn expire(&mut self, screen: &Screen) -> (r: (Screen, bool))
        requires
            screen.wf(),
            old(self).geom_ok(),
        ensures
            final(self).optics@ == keep_alive(old(self).optics@),
            forall|k: int|
                0 <= k < final(self).optics@.len() ==> (#[trigger] final(self).optics@[k]).y < H,
            final(self).geom_ok(),
            final(self).all_above(H as int),
            r.0.wf(),
            r.0@ == fold_expired(screen@, old(self).optics@),
            r.1 == (exists|k: int|
                0 <= k < old(self).optics@.len() && (#[trigger] old(self).optics@[k]).y >= H),
    {
        let mut out: Vec<Optic> = Vec::new();
        let mut acc: Screen = screen.copied();
        let mut removed: bool = false;
        let mut i: usize = 0;
        while i < self.optics.len()
            invariant
                self.optics@ == old(self).optics@,
                screen.wf(),
                old(self).geom_ok(),
                i <= self.optics@.len(),
                out@ == keep_alive(self.optics@.take(i as int)),
                forall|k: int| 0 <= k < out@.len() ==> (#[trigger] out@[k]).y < H,
                forall|k: int|
                    0 <= k < out@.len() ==> (#[trigger] out@[k]).bounded() && out@[k].shiftable(),
                acc.wf(),
                acc@ == fold_expired(screen@, self.optics@.take(i as int)),
                removed == (exists|k: int|
                    0 <= k < i && (#[trigger] self.optics@[k]).y >= H),
            decreases self.optics@.len() - i,
        {
            let o = self.optics[i];
            proof {
                assert(self.optics@.take(i as int + 1).drop_last() =~= self.optics@.take(
                    i as int,
                ));
            }
            if o.y < H {
                out.push(o);
            } else {
                acc = acc.compute(&o);
                removed = true;
            }
            i = i + 1;
        }
        proof {
            assert(self.optics@.take(self.optics@.len() as int) =~= self.optics@);
        }
        self.optics = out;
        (acc, removed)
    }

    /// The spawn half of the lifecycle pass: appends one freshly drawn
    /// prism, fully above the visible area.
    pub fn spawn(&mut self, prng: &mut rand_xoshiro::Xoshiro128StarStar)
        ensures
            final(self).optics@.len() == old(self).optics@.len() + 1,
            forall|k: int|
                0 <= k < old(self).optics@.len() ==> final(self).optics@[k] == old(
                    self,
                ).optics@[k],
            final(self).optics@.last().bounded(),
            final(self).optics@.last().shiftable(),
            final(self).optics@.last().y == -OPTIC_HEIGHT,
            1 <= final(self).optics@.last().w_from <= W / 3 - 1,
            1 <= final(self).optics@.last().w_to <= W / 3 - 1,
            old(self).geom_ok() ==> final(self).geom_ok(),
            old(self).all_above(H as int) ==> final(self).all_above(H as int),
    {
        let p = mk_prism(prng);
        self.optics.push(p);
    }
}

/// A new prism from three draws of the generator: source and destination
/// widths of at most a third of the display (clamped up to one column),
/// placed so both intervals share a centre column, starting fully above
/// the visible area.
pub fn mk_prism(prng: &mut rand_xoshiro::Xoshiro128StarStar) -> (r: Optic)
    ensures
        r.bounded(),
        r.shiftable(),
        r.y == -OPTIC_HEIGHT,
        1 <= r.w_from <= W / 3 - 1,
        1 <= r.w_to <= W / 3 - 1,
{
    let r1 = crate::rng::next_u32(prng);
    let r2 = crate::rng::next_u32(prng);
    let r3 = crate::rng::next_u32(prng);
    prism_from_randoms(r1, r2, r3)
}

/// The prism three raw draws determine: widths from the first two draws,
/// the shared centre column from the third.
pub fn prism_from_randoms(r1: u32, r2: u32, r3: u32) -> (r: Optic)
    ensures
        r.bounded(),
        r.shiftable(),
        r.y == -OPTIC_HEIGHT,
        r.w_from == width_from_draw(r1),
        r.w_to == width_from_draw(r2),
        ({
            let wmax = if width_from_draw(r1) >= width_from_draw(r2) {
                width_from_draw(r1)
            } else {
                width_from_draw(r2)
            };
            let xc = r3 as int % (W - wmax / 2);
            r.x_from == xc - width_from_draw(r1) / 2 && r.x_to == xc - width_from_draw(r2) / 2
        }),
{
    let third: u32 = W as u32 / 3;
    let m1: u32 = r1 % third;
    let w_from: u32 = if m1 == 0 {
        1
    } else {
        m1
    };
    let m2: u32 = r2 % third;
    let w_to: u32 = if m2 == 0 {
        1
    } else {
        m2
    };
    let w: u32 = if w_from >= w_to {
        w_from
    } else {
        w_to
    };
    let x_center: u32 = r3 % (W as u32 - w / 2);
    let x_from: i16 = x_center as i16 - (w_from / 2) as i16;
    let x_to: i16 = x_center as i16 - (w_to / 2) as i16;
    Optic { x_from, w_from: w_from as i16, x_to, w_to: w_to as i16, y: -OPTIC_HEIGHT }
}

} // verus!
