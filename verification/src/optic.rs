use vstd::prelude::*;

verus! {

use crate::{W, SPEED};
use vstd::arithmetic::div_mod::{
    lemma_basic_div,
    lemma_div_by_multiple,
    lemma_div_pos_is_pos,
    lemma_multiply_divide_le,
    lemma_small_mod,
};

/// One falling prism: the horizontal interval `[x_from, x_from + w_from)`
/// of the input pattern is re-projected onto the interval
/// `[x_to, x_to + w_to)` of the output row, and `y` is the prism's current
/// vertical position.
#[derive(Clone, Copy, PartialEq, Eq, Structural, Debug)]
pub struct Optic {
    pub x_from: i16,
    pub w_from: i16,
    pub x_to: i16,
    pub w_to: i16,
    pub y: i16,
}

/// Division that rounds toward zero, the rule every interpolation and
/// remap in this crate uses (`/` on `int` rounds toward negative infinity
/// instead).
pub open spec fn tdiv(a: int, b: int) -> int {
    if a >= 0 {
        a / b
    } else {
        -((-a) / b)
    }
}

/// Integer interpolation from `a` (at `p == 0`) to `b` (at `p == d`),
/// rounding toward zero.
pub open spec fn interp(a: int, b: int, p: int, d: int) -> int {
    a + tdiv((b - a) * p, d)
}

/// The start columns of both intervals after sliding them by `d` and then
/// clamping the whole prism back onto the display: left edges first, then
/// right edges, both interval pairs moved by the same amount.
pub open spec fn shift_clamped(o: Optic, d: int) -> (int, int) {
    let xf0 = o.x_from + d;
    let xt0 = o.x_to + d;
    let xf1 = if xt0 < 0 { xf0 - xt0 } else { xf0 };
    let xt1 = if xt0 < 0 { 0 } else { xt0 };
    let xf2 = if xf1 < 0 { 0 } else { xf1 };
    let xt2 = if xf1 < 0 { xt1 - xf1 } else { xt1 };
    let ov_to = xt2 + o.w_to - W;
    let xf3 = if ov_to > 0 { xf2 - ov_to } else { xf2 };
    let xt3 = if ov_to > 0 { xt2 - ov_to } else { xt2 };
    let ov_from = xf3 + o.w_from - W;
    let xf4 = if ov_from > 0 { xf3 - ov_from } else { xf3 };
    let xt4 = if ov_from > 0 { xt3 - ov_from } else { xt3 };
    (xf4, xt4)
}

/// The growth snapshot of `o` at progress `p` (taken modulo `h`): the
/// destination interval is interpolated from the flat state back to the
/// real destination, and the position advances by the progress.
pub open spec fn relative_spec(o: Optic, p: int, h: int) -> Optic {
    let q = p % h;
    Optic {
        x_from: o.x_from,
        w_from: o.w_from,
        x_to: interp(o.x_from as int, o.x_to as int, q, h - 1) as i16,
        w_to: interp(o.w_from as int, o.w_to as int, q, h - 1) as i16,
        y: (o.y + q) as i16,
    }
}

impl Optic {
    /// Both intervals lie on the display with positive widths.
    pub open spec fn wf(self) -> bool {
        &&& 0 <= self.x_from
        &&& 1 <= self.w_from
        &&& self.x_from + self.w_from <= W
        &&& 0 <= self.x_to
        &&& 1 <= self.w_to
        &&& self.x_to + self.w_to <= W
    }

    /// Every field lies within one display width. A freshly spawned prism
    /// may start a little left of column zero, but never further out than
    /// this.
    pub open spec fn bounded(self) -> bool {
        &&& -W <= self.x_from <= W
        &&& 0 <= self.w_from <= W
        &&& -W <= self.x_to <= W
        &&& 0 <= self.w_to <= W
    }

    /// Loose enough to admit a freshly spawned prism, tight enough that a
    /// horizontal shift can always clamp both intervals back onto the
    /// display without shrinking them.
    pub open spec fn shiftable(self) -> bool {
        &&& 0 <= self.w_from <= W
        &&& 0 <= self.w_to <= W
        &&& self.x_to - self.x_from <= W - self.w_to
        &&& self.x_from - self.x_to <= W - self.w_from
    }

    /// Builds a prism, clamping a degenerate zero width up to 1 so that
    /// the remap division is always meaningful.
    pub fn new(x_from: i16, w_from: i16, x_to: i16, w_to: i16, y: i16) -> (r: Optic)
        requires
            0 <= x_from < W,
            0 <= x_to < W,
            0 <= w_from,
            0 <= w_to,
            x_from + w_from <= W,
            x_to + w_to <= W,
        ensures
            r.wf(),
            r.x_from == x_from,
            r.x_to == x_to,
            r.y == y,
            r.w_from == (if w_from == 0 { 1int } else { w_from as int }),
            r.w_to == (if w_to == 0 { 1int } else { w_to as int }),
    {
        Optic {
            x_from,
            w_from: if w_from == 0 { 1 } else { w_from },
            x_to,
            w_to: if w_to == 0 { 1 } else { w_to },
            y,
        }
    }

    /// The synthetic prism that maps the region left of the destination
    /// interval from the region left of the source interval, so the whole
    /// row stays covered.
    pub fn get_left_complement(&self) -> (r: Optic)
        ensures
            r == (Optic {
                x_from: 0,
                w_from: self.x_from,
                x_to: 0,
                w_to: self.x_to,
                y: self.y,
            }),
    {
        Optic { x_from: 0, w_from: self.x_from, x_to: 0, w_to: self.x_to, y: self.y }
    }

    /// The synthetic prism that maps the region right of the destination
    /// interval from the region right of the source interval.
    pub fn get_right_complement(&self) -> (r: Optic)
        requires
            self.bounded(),
        ensures
            r.x_from == self.x_from + self.w_from,
            r.w_from == W - (self.x_from + self.w_from),
            r.x_to == self.x_to + self.w_to,
            r.w_to == W - (self.x_to + self.w_to),
            r.y == self.y,
    {
        let start_from = self.x_from + self.w_from;
        let start_to = self.x_to + self.w_to;
        Optic {
            x_from: start_from,
            w_from: W - start_from,
            x_to: start_to,
            w_to: W - start_to,
            y: self.y,
        }
    }

    /// One simulation step: the prism falls by the constant velocity.
    pub fn step(&self) -> (r: Optic)
        requires
            self.y + SPEED <= i16::MAX,
        ensures
            r == (Optic { y: (self.y + SPEED) as i16, ..*self }),
    {
        Optic { y: self.y + SPEED, ..*self }
    }

    /// Slides the prism horizontally by `delta`, then clamps it back onto
    /// the display. Both intervals move together and keep their widths, so
    /// after the call both lie within `[0, W]` however large `delta` was.
    pub fn shift(&self, delta: i16) -> (r: Optic)
        requires
            self.shiftable(),
        ensures
            r.x_from == shift_clamped(*self, delta as int).0,
            r.x_to == shift_clamped(*self, delta as int).1,
            r.w_from == self.w_from,
            r.w_to == self.w_to,
            r.y == self.y,
            0 <= r.x_from,
            0 <= r.x_to,
            r.x_from + r.w_from <= W,
            r.x_to + r.w_to <= W,
            r.bounded(),
            r.shiftable(),
            self.wf() ==> r.wf(),
    {
        let w_from = self.w_from as i32;
        let w_to = self.w_to as i32;
        let mut x_from = self.x_from as i32 + delta as i32;
        let mut x_to = self.x_to as i32 + delta as i32;

        // left border
        if x_to < 0 {
            x_from = x_from - x_to;
            x_to = 0;
        }
        if x_from < 0 {
            x_to = x_to - x_from;
            x_from = 0;
        }

        // right border
        let to_overflow = x_to + w_to - W as i32;
        if to_overflow > 0 {
            x_to = x_to - to_overflow;
            x_from = x_from - to_overflow;
        }
        let from_overflow = x_from + w_from - W as i32;
        if from_overflow > 0 {
            x_to = x_to - from_overflow;
            x_from = x_from - from_overflow;
        }

        Optic {
            x_from: x_from as i16,
            x_to: x_to as i16,
            w_from: self.w_from,
            w_to: self.w_to,
            y: self.y,
        }
    }

    /// The growth snapshot of this prism at `progress` (taken modulo
    /// `height`): row `progress` of the band that animates the refraction
    /// into existence.
    pub fn get_relative(&self, progress: i16, height: i16) -> (r: Optic)
        requires
            2 <= height,
            0 <= progress,
            self.y + (progress as int % height as int) <= i16::MAX,
        ensures
            r == relative_spec(*self, progress as int, height as int),
            r.x_from == self.x_from,
            r.w_from == self.w_from,
            r.x_to == interp(
                self.x_from as int,
                self.x_to as int,
                progress as int % height as int,
                height - 1,
            ),
            r.w_to == interp(
                self.w_from as int,
                self.w_to as int,
                progress as int % height as int,
                height - 1,
            ),
            r.y == self.y + progress as int % height as int,
    {
        let p_mod: u16 = (progress as u16) % (height as u16);
        proof {
            assert(p_mod as int == progress as int % height as int);
        }
        let x_to = interp_exec(self.x_from, self.x_to, p_mod as i64, height as i64 - 1);
        let w_to = interp_exec(self.w_from, self.w_to, p_mod as i64, height as i64 - 1);
        Optic {
            x_from: self.x_from,
            w_from: self.w_from,
            x_to,
            w_to,
            y: self.y + p_mod as i16,
        }
    }
}

/// Executable integer interpolation, rounding toward zero; the result
/// always lies between the two endpoints.
fn interp_exec(a: i16, b: i16, p: i64, d: i64) -> (r: i16)
    requires
        1 <= d <= 0x10000,
        0 <= p <= d,
    ensures
        r == interp(a as int, b as int, p as int, d as int),
        a <= b ==> a <= r <= b,
        b <= a ==> b <= r <= a,
{
    proof {
        lemma_interp_between(a as int, b as int, p as int, d as int);
    }
    let aa: i64 = a as i64;
    let bb: i64 = b as i64;
    let diff: i64 = if bb >= aa {
        bb - aa
    } else {
        aa - bb
    };
    proof {
        assert(0 <= diff * p <= 0x1_0000_0000_0000) by (nonlinear_arith)
            requires
                0 <= diff <= 0x10000,
                0 <= p <= 0x10000,
        ;
    }
    let num: i64 = diff * p;
    let q64: u64 = (num as u64) / (d as u64);
    proof {
        lemma_div_pos_is_pos(num as int, d as int);
        assert(num <= d * diff) by (nonlinear_arith)
            requires
                0 <= diff,
                0 <= p <= d,
                num == diff * p,
        ;
        lemma_multiply_divide_le(num as int, d as int, diff as int);
    }
    let q: i64 = q64 as i64;
    if bb >= aa {
        (aa + q) as i16
    } else {
        proof {
            assert((b - a) * (p as int) == -(diff * p)) by (nonlinear_arith)
                requires
                    b - a == -diff,
            ;
            lemma_basic_div(0, d as int);
        }
        (aa - q) as i16
    }
}

/// Scaling `c` by `p / d` with truncation stays between 0 and `c`.
proof fn lemma_tdiv_scale(c: int, p: int, d: int)
    requires
        1 <= d,
        0 <= p <= d,
    ensures
        c >= 0 ==> 0 <= tdiv(c * p, d) <= c,
        c <= 0 ==> c <= tdiv(c * p, d) <= 0,
{
    if c >= 0 {
        assert(0 <= c * p && c * p <= d * c) by (nonlinear_arith)
            requires
                0 <= c,
                0 <= p <= d,
        ;
        lemma_div_pos_is_pos(c * p, d);
        lemma_multiply_divide_le(c * p, d, c);
    } else {
        let m = -c;
        assert(c * p == -(m * p) && 0 <= m * p && m * p <= d * m) by (nonlinear_arith)
            requires
                m == -c,
                c < 0,
                0 <= p <= d,
        ;
        lemma_div_pos_is_pos(m * p, d);
        lemma_multiply_divide_le(m * p, d, m);
        lemma_basic_div(0, d);
    }
}

/// The interpolation between two endpoints never leaves the interval they
/// span.
pub proof fn lemma_interp_between(a: int, b: int, p: int, d: int)
    requires
        1 <= d,
        0 <= p <= d,
    ensures
        a <= b ==> a <= interp(a, b, p, d) <= b,
        b <= a ==> b <= interp(a, b, p, d) <= a,
{
    lemma_tdiv_scale(b - a, p, d);
}

/// The snapshot at progress 0 is flat: the output interval equals the
/// source interval and the vertical position is unchanged.
pub proof fn lemma_relative_flat(o: Optic, h: int)
    requires
        2 <= h,
    ensures
        relative_spec(o, 0, h) == (Optic { x_to: o.x_from, w_to: o.w_from, ..o }),
{
    lemma_small_mod(0nat, h as nat);
    lemma_basic_div(0, h - 1);
    assert((o.x_to - o.x_from) * 0 == 0) by (nonlinear_arith);
    assert((o.w_to - o.w_from) * 0 == 0) by (nonlinear_arith);
}

/// The snapshot at the last growth row is fully formed: the output
/// interval equals the destination interval and the position has advanced
/// by the whole band height (as far as the position field can hold it).
pub proof fn lemma_relative_full(o: Optic, h: int)
    requires
        2 <= h,
    ensures
        relative_spec(o, h - 1, h).x_from == o.x_from,
        relative_spec(o, h - 1, h).w_from == o.w_from,
        relative_spec(o, h - 1, h).x_to == o.x_to,
        relative_spec(o, h - 1, h).w_to == o.w_to,
        o.y + h - 1 <= i16::MAX ==> relative_spec(o, h - 1, h).y == o.y + h - 1,
{
    lemma_small_mod((h - 1) as nat, h as nat);
    lemma_tdiv_whole(o.x_to - o.x_from, h - 1);
    lemma_tdiv_whole(o.w_to - o.w_from, h - 1);
}

/// Truncating division returns a whole multiple exactly.
proof fn lemma_tdiv_whole(c: int, d: int)
    requires
        1 <= d,
    ensures
        tdiv(c * d, d) == c,
{
    if c >= 0 {
        assert(c * d >= 0) by (nonlinear_arith)
            requires
                c >= 0,
                d >= 1,
        ;
        lemma_div_by_multiple(c, d);
    } else {
        assert(c * d < 0 && -(c * d) == (-c) * d) by (nonlinear_arith)
            requires
                c < 0,
                d >= 1,
        ;
        lemma_div_by_multiple(-c, d);
    }
}

/// Linearity of the growth interpolation: for a progress strictly inside
/// the band, the snapshot's destination start is the integer interpolation
/// between source start and destination start, rounding toward zero, and
/// likewise for the width.
pub proof fn lemma_relative_linear(o: Optic, p: int, h: int)
    requires
        2 <= h,
        0 < p < h - 1,
    ensures
        relative_spec(o, p, h).x_to == o.x_from + tdiv((o.x_to - o.x_from) * p, h - 1),
        relative_spec(o, p, h).w_to == o.w_from + tdiv((o.w_to - o.w_from) * p, h - 1),
{
    lemma_small_mod(p as nat, h as nat);
    lemma_interp_between(o.x_from as int, o.x_to as int, p, h - 1);
    lemma_interp_between(o.w_from as int, o.w_to as int, p, h - 1);
}

} // verus!
