//! Clipping of overlay segments against the framebuffer rectangle.
//!
//! The clip is a sequential parametric clamp: the second endpoint is pulled
//! back along the segment to the vertical then the horizontal boundary, then
//! the first endpoint is pulled toward the already-clamped second endpoint
//! in the same way. Each pull solves `p + t * (q - p)` for the boundary and
//! truncates the other coordinate toward zero. A pull is only meaningful
//! when the boundary lies between the fixed and the moving coordinate, that
//! is when the solved parameter `t` lies in `[0, 1]`; a pull that would
//! extrapolate past the fixed endpoint — including the flat,
//! division-by-zero direction — marks the segment degenerate and drops it.
//! A clipped segment therefore lies entirely inside the rectangle or is
//! absent, never partially outside.
use vstd::prelude::*;
use vstd::arithmetic::div_mod::*;
use crate::geom::{Line2d, Pt2};
use crate::raster::{abs_i, max_i};

verus! {

pub open spec fn min_i(a: int, b: int) -> int {
    if a < b {
        a
    } else {
        b
    }
}

/// Division truncated toward zero, for a positive divisor.
pub open spec fn trunc_div_pos(a: int, b: int) -> int {
    if b == 0 {
        0
    } else if a >= 0 {
        a / b
    } else {
        -((-a) / b)
    }
}

/// Division truncated toward zero, for any nonzero divisor.
pub open spec fn trunc_div(a: int, b: int) -> int {
    if b < 0 {
        trunc_div_pos(-a, -b)
    } else {
        trunc_div_pos(a, b)
    }
}

/// One clamp stage: the moving coordinate `ma` is pulled into `[0, bound]`
/// along the segment toward the fixed point; `fo` and `mo` are the fixed and
/// moving values of the other axis. Yields the new `(ma, mo)`, or nothing
/// when the fixed coordinate lies beyond the same boundary, so that the
/// solved parameter would leave `[0, 1]` and the pull would extrapolate.
pub open spec fn spec_stage(fa: int, fo: int, ma: int, mo: int, bound: int) -> Option<(int, int)> {
    if 0 <= ma <= bound {
        Some((ma, mo))
    } else {
        let b: int = if ma < 0 {
            0
        } else {
            bound
        };
        if ma < 0 && fa < 0 {
            None
        } else if ma > bound && fa > bound {
            None
        } else {
            Some((b, fo + trunc_div((mo - fo) * (b - fa), ma - fa)))
        }
    }
}

/// The four clamp stages in order: the second endpoint against the vertical
/// then the horizontal boundaries (toward the first endpoint), then the
/// first endpoint likewise toward the already-clamped second endpoint.
/// Yields `(p1x, p1y, p2x, p2y)`.
pub open spec fn spec_clamp(p1: Pt2, p2: Pt2, w: int, h: int) -> Option<(int, int, int, int)> {
    let x1: int = p1.x as int;
    let y1: int = p1.y as int;
    let x2: int = p2.x as int;
    let y2: int = p2.y as int;
    match spec_stage(x1, y1, x2, y2, w) {
        None => None,
        Some((ax, ay)) => match spec_stage(y1, x1, ay, ax, h) {
            None => None,
            Some((by, bx)) => match spec_stage(bx, by, x1, y1, w) {
                None => None,
                Some((cx, cy)) => match spec_stage(by, bx, cy, cx, h) {
                    None => None,
                    Some((dy2, dx2)) => Some((dx2, dy2, bx, by)),
                },
            },
        },
    }
}

/// The clipped segment, keeping the color, or nothing for a degenerate
/// clamp. Every yielded coordinate lies inside the rectangle (see
/// `lemma_clamp_contained`), so the casts lose nothing.
pub open spec fn spec_clamp_line(l: Line2d, w: int, h: int) -> Option<Line2d> {
    match spec_clamp(l.p1, l.p2, w, h) {
        None => None,
        Some((p1x, p1y, p2x, p2y)) => Some(
            Line2d {
                p1: Pt2 { x: p1x as i32, y: p1y as i32 },
                p2: Pt2 { x: p2x as i32, y: p2y as i32 },
                color: l.color,
            },
        ),
    }
}

fn trunc_div_i128(a: i128, b: i128) -> (r: i128)
    requires
        b != 0,
        -0x4000_0000_0000_0000_0000_0000_0000_0000 <= a
            <= 0x4000_0000_0000_0000_0000_0000_0000_0000 - 1,
        -0x4000_0000_0000_0000_0000_0000_0000_0000 <= b
            <= 0x4000_0000_0000_0000_0000_0000_0000_0000 - 1,
    ensures
        r as int == trunc_div(a as int, b as int),
        abs_i(r as int) <= abs_i(a as int),
{
    let (num, den): (i128, i128) = if b < 0 {
        (-a, -b)
    } else {
        (a, b)
    };
    proof {
        lemma_trunc_div_pos_abs(num as int, den as int);
    }
    match num.checked_div(den) {
        Some(q) => q,
        None => {
            proof {
                assert(false);
            }
            0
        },
    }
}

proof fn lemma_trunc_div_pos_abs(a: int, b: int)
    requires
        b >= 1,
    ensures
        abs_i(trunc_div_pos(a, b)) <= abs_i(a),
        trunc_div_pos(a, b) == if a >= 0 {
            a / b
        } else {
            -((-a) / b)
        },
{
    if a >= 0 {
        lemma_div_pos_is_pos(a, b);
        lemma_div_is_ordered_by_denominator(a, 1, b);
        lemma_div_by_self(1);
        assert(a / 1 == a) by {
            lemma_fundamental_div_mod(a, 1);
        }
    } else {
        lemma_div_pos_is_pos(-a, b);
        lemma_div_is_ordered_by_denominator(-a, 1, b);
        assert((-a) / 1 == -a) by {
            lemma_fundamental_div_mod(-a, 1);
        }
    }
}

/// Whether a point lies inside the closed clip rectangle.
pub open spec fn in_window(x: int, y: int, w: int, h: int) -> bool {
    0 <= x <= w && 0 <= y <= h
}

proof fn lemma_trunc_div_between(delta: int, num: int, den: int)
    requires
        den >= 1,
        0 <= num <= den,
    ensures
        min_i(0, delta) <= trunc_div_pos(delta * num, den) <= max_i(0, delta),
{
    if delta >= 0 {
        assert(0 <= delta * num <= delta * den) by (nonlinear_arith)
            requires
                delta >= 0,
                0 <= num <= den,
        ;
        lemma_div_pos_is_pos(delta * num, den);
        lemma_div_is_ordered(delta * num, delta * den, den);
        lemma_div_by_multiple(delta, den);
    } else {
        assert(0 <= (-delta) * num <= (-delta) * den) by (nonlinear_arith)
            requires
                delta < 0,
                0 <= num <= den,
        ;
        assert(-(delta * num) == (-delta) * num) by (nonlinear_arith);
        lemma_div_pos_is_pos((-delta) * num, den);
        lemma_div_is_ordered((-delta) * num, (-delta) * den, den);
        lemma_div_by_multiple(-delta, den);
    }
}

/// What a successful clamp stage guarantees: the clamped coordinate lands
/// inside `[0, bound]`, and the other coordinate stays between its fixed
/// and moving values. A stage succeeds only when its solved parameter lies
/// in `[0, 1]`, so no hypothesis on the fixed point is needed.
proof fn lemma_stage_some_bounds(fa: int, fo: int, ma: int, mo: int, bound: int, na: int, no: int)
    requires
        0 <= bound,
        spec_stage(fa, fo, ma, mo, bound) == Some((na, no)),
    ensures
        0 <= na <= bound,
        min_i(fo, mo) <= no <= max_i(fo, mo),
{
    if 0 <= ma <= bound {
    } else {
        let b: int = if ma < 0 {
            0
        } else {
            bound
        };
        let delta: int = mo - fo;
        if ma < 0 {
            assert(-((mo - fo) * (b - fa)) == delta * fa) by (nonlinear_arith)
                requires
                    b == 0,
                    delta == mo - fo,
            ;
            assert(trunc_div((mo - fo) * (b - fa), ma - fa) == trunc_div_pos(
                delta * fa,
                fa - ma,
            ));
            lemma_trunc_div_between(delta, fa, fa - ma);
        } else {
            assert((mo - fo) * (b - fa) == delta * (b - fa)) by (nonlinear_arith)
                requires
                    delta == mo - fo,
            ;
            assert(trunc_div((mo - fo) * (b - fa), ma - fa) == trunc_div_pos(
                delta * (b - fa),
                ma - fa,
            ));
            lemma_trunc_div_between(delta, b - fa, ma - fa);
        }
    }
}

/// A clamp stage whose fixed coordinate lies inside `[0, bound]` always
/// succeeds: the boundary then lies between the fixed and the moving
/// coordinate.
proof fn lemma_stage_total(fa: int, fo: int, ma: int, mo: int, bound: int)
    requires
        0 <= bound,
        0 <= fa <= bound,
    ensures
        spec_stage(fa, fo, ma, mo, bound) is Some,
{
}

proof fn lemma_spec_clamp_contained(p1: Pt2, p2: Pt2, w: int, h: int)
    requires
        0 <= w,
        0 <= h,
    ensures
        spec_clamp(p1, p2, w, h) matches Some((p1x, p1y, p2x, p2y)) ==> in_window(p1x, p1y, w, h)
            && in_window(p2x, p2y, w, h),
{
    let x1: int = p1.x as int;
    let y1: int = p1.y as int;
    let x2: int = p2.x as int;
    let y2: int = p2.y as int;
    if spec_clamp(p1, p2, w, h) is Some {
        let (ax, ay) = spec_stage(x1, y1, x2, y2, w)->Some_0;
        let (by, bx) = spec_stage(y1, x1, ay, ax, h)->Some_0;
        let (cx, cy) = spec_stage(bx, by, x1, y1, w)->Some_0;
        let (dy2, dx2) = spec_stage(by, bx, cy, cx, h)->Some_0;
        lemma_stage_some_bounds(x1, y1, x2, y2, w, ax, ay);
        lemma_stage_some_bounds(y1, x1, ay, ax, h, by, bx);
        lemma_stage_some_bounds(bx, by, x1, y1, w, cx, cy);
        lemma_stage_some_bounds(by, bx, cy, cx, h, dy2, dx2);
        // the second endpoint's x lies between x1 and the first stage's
        // output when x1 is inside; otherwise the third stage succeeded
        // only because that x already sat on the right side of the boundary
        if x1 < 0 {
            assert(bx >= 0);
            assert(bx <= max_i(x1, ax));
        } else if x1 > w {
            assert(bx <= w);
            assert(bx >= min_i(x1, ax));
        }
        assert(0 <= bx <= w);
    }
}

/// Law: clipping a segment that already lies inside the rectangle returns
/// it unchanged.
pub proof fn lemma_clamp_identity(l: Line2d, w: int, h: int)
    requires
        0 <= w <= 0x7fff_ffff,
        0 <= h <= 0x7fff_ffff,
        in_window(l.p1.x as int, l.p1.y as int, w, h),
        in_window(l.p2.x as int, l.p2.y as int, w, h),
    ensures
        spec_clamp_line(l, w, h) == Some(l),
{
    let x1: int = l.p1.x as int;
    let y1: int = l.p1.y as int;
    let x2: int = l.p2.x as int;
    let y2: int = l.p2.y as int;
    assert(spec_clamp(l.p1, l.p2, w, h) == Some((x1, y1, x2, y2)));
    assert(spec_clamp_line(l, w, h)->Some_0 == l);
}

/// Law: a clipped segment is never partially out of range: both endpoints
/// of any yielded segment lie inside `[0, width] x [0, height]`, whatever
/// the input.
pub proof fn lemma_clamp_contained(l: Line2d, w: int, h: int)
    requires
        0 <= w <= 0x7fff_ffff,
        0 <= h <= 0x7fff_ffff,
    ensures
        spec_clamp_line(l, w, h) matches Some(r) ==> in_window(r.p1.x as int, r.p1.y as int, w, h)
            && in_window(r.p2.x as int, r.p2.y as int, w, h),
{
    lemma_spec_clamp_contained(l.p1, l.p2, w, h);
}

/// Law: when at least one endpoint lies inside the rectangle, clipping
/// always yields a segment, and it lies entirely inside
/// `[0, width] x [0, height]`.
pub proof fn lemma_clamp_window(l: Line2d, w: int, h: int)
    requires
        0 <= w <= 0x7fff_ffff,
        0 <= h <= 0x7fff_ffff,
        in_window(l.p1.x as int, l.p1.y as int, w, h) || in_window(
            l.p2.x as int,
            l.p2.y as int,
            w,
            h,
        ),
    ensures
        spec_clamp_line(l, w, h) is Some,
        spec_clamp_line(l, w, h) matches Some(r) ==> in_window(r.p1.x as int, r.p1.y as int, w, h)
            && in_window(r.p2.x as int, r.p2.y as int, w, h),
{
    let x1: int = l.p1.x as int;
    let y1: int = l.p1.y as int;
    let x2: int = l.p2.x as int;
    let y2: int = l.p2.y as int;
    if in_window(x1, y1, w, h) {
        lemma_stage_total(x1, y1, x2, y2, w);
        let (ax, ay) = spec_stage(x1, y1, x2, y2, w)->Some_0;
        lemma_stage_total(y1, x1, ay, ax, h);
        let (by, bx) = spec_stage(y1, x1, ay, ax, h)->Some_0;
        lemma_stage_some_bounds(y1, x1, ay, ax, h, by, bx);
        // the first endpoint is inside on both axes, so the last two stages
        // change nothing
        assert(spec_stage(bx, by, x1, y1, w) == Some((x1, y1)));
        assert(spec_stage(by, bx, y1, x1, h) == Some((y1, x1)));
    } else {
        // the second endpoint is inside, so the first two stages change
        // nothing
        assert(spec_stage(x1, y1, x2, y2, w) == Some((x2, y2)));
        assert(spec_stage(y1, x1, y2, x2, h) == Some((y2, x2)));
        lemma_stage_total(x2, y2, x1, y1, w);
        let (cx, cy) = spec_stage(x2, y2, x1, y1, w)->Some_0;
        lemma_stage_total(y2, x2, cy, cx, h);
    }
    lemma_spec_clamp_contained(l.p1, l.p2, w, h);
}

fn stage(fa: i128, fo: i128, ma: i128, mo: i128, bound: i128) -> (r: Option<(i128, i128)>)
    requires
        0 <= bound <= 0x7fff_ffff,
        -0x8000_0000 <= fa <= 0x8000_0000,
        -0x8000_0000 <= fo <= 0x8000_0000,
        -0x8000_0000 <= ma <= 0x8000_0000,
        -0x8000_0000 <= mo <= 0x8000_0000,
    ensures
        match r {
            None => spec_stage(fa as int, fo as int, ma as int, mo as int, bound as int) is None,
            Some((na, no)) => spec_stage(fa as int, fo as int, ma as int, mo as int, bound as int)
                == Some((na as int, no as int)) && 0 <= na <= bound && min_i(fo as int, mo as int)
                <= no as int <= max_i(fo as int, mo as int),
        },
{
    if 0 <= ma && ma <= bound {
        Some((ma, mo))
    } else {
        let b: i128 = if ma < 0 {
            0
        } else {
            bound
        };
        if ma < 0 && fa < 0 {
            None
        } else if ma > bound && fa > bound {
            None
        } else {
            proof {
                assert(-0x4_0000_0000_0000_0000 <= (mo - fo) * (b - fa)
                    <= 0x4_0000_0000_0000_0000) by (nonlinear_arith)
                    requires
                        -0x2_0000_0000 <= mo - fo <= 0x2_0000_0000,
                        -0x2_0000_0000 <= b - fa <= 0x2_0000_0000,
                ;
            }
            let num: i128 = (mo - fo) * (b - fa);
            let den: i128 = ma - fa;
            let q: i128 = trunc_div_i128(num, den);
            proof {
                lemma_stage_some_bounds(
                    fa as int,
                    fo as int,
                    ma as int,
                    mo as int,
                    bound as int,
                    b as int,
                    fo as int + q as int,
                );
            }
            Some((b, fo + q))
        }
    }
}

impl Line2d {
    /// Clips this segment against the `[0, width] x [0, height]` rectangle
    /// by the sequential parametric clamp, or drops it as degenerate.
    pub fn clamp(&self, display_width: usize, display_height: usize) -> (r: Option<Line2d>)
        requires
            display_width <= 0x7fff_ffff,
            display_height <= 0x7fff_ffff,
        ensures
            r == spec_clamp_line(*self, display_width as int, display_height as int),
    {
        let w: i128 = display_width as i128;
        let h: i128 = display_height as i128;
        let x1: i128 = self.p1.x as i128;
        let y1: i128 = self.p1.y as i128;
        let x2: i128 = self.p2.x as i128;
        let y2: i128 = self.p2.y as i128;
        let st_a: Option<(i128, i128)> = stage(x1, y1, x2, y2, w);
        match st_a {
            None => None,
            Some((ax, ay)) => {
                let st_b: Option<(i128, i128)> = stage(y1, x1, ay, ax, h);
                match st_b {
                    None => None,
                    Some((by, bx)) => {
                        let st_c: Option<(i128, i128)> = stage(bx, by, x1, y1, w);
                        match st_c {
                            None => None,
                            Some((cx, cy)) => {
                                let st_d: Option<(i128, i128)> = stage(by, bx, cy, cx, h);
                                match st_d {
                                    None => None,
                                    Some((dy2, dx2)) => {
                                        proof {
                                            lemma_spec_clamp_contained(
                                                self.p1,
                                                self.p2,
                                                display_width as int,
                                                display_height as int,
                                            );
                                        }
                                        Some(
                                            Line2d {
                                                p1: Pt2 { x: dx2 as i32, y: dy2 as i32 },
                                                p2: Pt2 { x: bx as i32, y: by as i32 },
                                                color: self.color,
                                            },
                                        )
                                    },
                                }
                            },
                        }
                    },
                }
            },
        }
    }
}

} // verus!
