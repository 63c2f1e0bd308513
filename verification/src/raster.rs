//! Incremental-error (Bresenham) rasterization of integer pixel segments,
//! and the framebuffer writes of the overlay renderer.
use vstd::prelude::*;
use vstd::pervasive::VecAdditionalExecFns;
use crate::geom::{Line2d, Pt2};

verus! {

pub open spec fn abs_i(a: int) -> int {
    if a < 0 {
        -a
    } else {
        a
    }
}

pub open spec fn max_i(a: int, b: int) -> int {
    if a < b {
        b
    } else {
        a
    }
}

/// The pixel coordinates of a flat framebuffer index, row-major: the
/// column, then the row.
pub fn uv(i: usize, display_width: usize) -> (r: (usize, usize))
    requires
        display_width > 0,
    ensures
        r.0 == i as int % display_width as int,
        r.1 == i as int / display_width as int,
        r.0 < display_width,
{
    (i % display_width, i / display_width)
}

/// The integer interpretations of a vector of pixel coordinates.
pub open spec fn seq_int(s: Seq<(i32, i32)>) -> Seq<(int, int)> {
    s.map_values(|p: (i32, i32)| (p.0 as int, p.1 as int))
}

/// The remaining points of a low-slope walk along the major axis: `k` steps
/// starting at `(x, y)`, with error accumulator `d`; whenever the error is
/// positive the minor axis steps by `yi` and the error is corrected by the
/// major delta `dx`, and each step accrues twice the minor delta `dy`.
pub open spec fn walk_steps(k: nat, x: int, y: int, yi: int, d: int, dx: int, dy: int) -> Seq<
    (int, int),
>
    decreases k,
{
    if k == 0 {
        Seq::empty()
    } else if d > 0 {
        seq![(x, y)] + walk_steps((k - 1) as nat, x + 1, y + yi, yi, d - 2 * dx + 2 * dy, dx, dy)
    } else {
        seq![(x, y)] + walk_steps((k - 1) as nat, x + 1, y, yi, d + 2 * dy, dx, dy)
    }
}

/// The full low-slope walk from `(x1, y1)` to `(x2, y2)`: the first
/// coordinate is the major axis, iterated upward and excluding `x2` itself.
pub open spec fn walk_low(x1: int, y1: int, x2: int, y2: int) -> Seq<(int, int)> {
    let dx: int = x2 - x1;
    let dy: int = abs_i(y2 - y1);
    let yi: int = if y2 - y1 < 0 {
        -1
    } else {
        1
    };
    walk_steps(
        if dx > 0 {
            dx as nat
        } else {
            0
        },
        x1,
        y1,
        yi,
        2 * dy - dx,
        dx,
        dy,
    )
}

/// The unfiltered pixel walk of a segment: the major axis is chosen by
/// comparing the coordinate deltas, the walk always runs upward along it,
/// and steep segments are walked with the axes exchanged and the points
/// exchanged back on output.
pub open spec fn spec_plot_points(p1: Pt2, p2: Pt2) -> Seq<(int, int)> {
    let x1: int = p1.x as int;
    let y1: int = p1.y as int;
    let x2: int = p2.x as int;
    let y2: int = p2.y as int;
    if abs_i(y2 - y1) < abs_i(x2 - x1) {
        if x1 > x2 {
            walk_low(x2, y2, x1, y1)
        } else {
            walk_low(x1, y1, x2, y2)
        }
    } else {
        let w: Seq<(int, int)> = if y1 > y2 {
            walk_low(y2, x2, y1, x1)
        } else {
            walk_low(y1, x1, y2, x2)
        };
        w.map_values(|p: (int, int)| (p.1, p.0))
    }
}

/// Whether a pixel lies strictly inside the framebuffer rectangle; boundary
/// pixels are excluded, as a defensive bound for the mirrored write.
pub open spec fn in_interior(p: (int, int), w: int, h: int) -> bool {
    0 < p.0 < w && 0 < p.1 < h
}

pub open spec fn plot_filter(s: Seq<(int, int)>, w: int, h: int) -> Seq<(int, int)> {
    s.filter(|p: (int, int)| in_interior(p, w, h))
}

/// The pixels a segment contributes to a `w x h` framebuffer: its walk,
/// filtered to the open interior of the rectangle.
pub open spec fn spec_plot(p1: Pt2, p2: Pt2, w: int, h: int) -> Seq<(int, int)> {
    plot_filter(spec_plot_points(p1, p2), w, h)
}

fn plot_line_low(x1: i32, y1: i32, x2: i32, y2: i32) -> (r: Vec<(i32, i32)>)
    requires
        x1 < x2 ==> abs_i(y2 as int - y1 as int) <= x2 as int - x1 as int,
    ensures
        seq_int(r@) == walk_low(x1 as int, y1 as int, x2 as int, y2 as int),
{
    let mut r: Vec<(i32, i32)> = Vec::new();
    if x1 >= x2 {
        proof {
            assert(seq_int(r@) =~= walk_low(x1 as int, y1 as int, x2 as int, y2 as int));
        }
        return r;
    }
    let dx: i64 = x2 as i64 - x1 as i64;
    let dyr: i64 = y2 as i64 - y1 as i64;
    let yi: i64 = if dyr < 0 {
        -1
    } else {
        1
    };
    let dy: i64 = if dyr < 0 {
        -dyr
    } else {
        dyr
    };
    let mut d: i64 = 2 * dy - dx;
    let mut x: i64 = x1 as i64;
    let mut y: i64 = y1 as i64;
    let x2w: i64 = x2 as i64;
    proof {
        assert(seq_int(r@) =~= Seq::<(int, int)>::empty());
        assert(d == 2 * (x - x1 as int + 1) * dy - dx - 2 * (yi as int * (y - y1 as int)) * dx)
            by (nonlinear_arith)
            requires
                x == x1 as int,
                y == y1 as int,
                d == 2 * dy - dx,
        ;
    }
    while x < x2w
        invariant
            dx == x2 as int - x1 as int,
            1 <= dx <= 0x1_0000_0000,
            dy == abs_i(y2 as int - y1 as int),
            0 <= dy <= dx,
            yi == 1 || yi == -1,
            y2 as int - y1 as int == yi * dy,
            x2w == x2 as int,
            x1 as int <= x <= x2 as int,
            0 <= yi * (y - y1 as int) <= dy,
            d == 2 * (x - x1 as int + 1) * dy - dx - 2 * (yi * (y - y1 as int)) * dx,
            -2 * dx < d <= 2 * dy,
            r@.len() == x - x1 as int,
            seq_int(r@) + walk_steps(
                (x2w - x) as nat,
                x as int,
                y as int,
                yi as int,
                d as int,
                dx as int,
                dy as int,
            ) == walk_low(x1 as int, y1 as int, x2 as int, y2 as int),
        decreases x2w - x,
    {
        let ghost prefix: Seq<(int, int)> = seq_int(r@);
        let ghost kx: nat = (x2w - x) as nat;
        let ghost s: int = yi as int * (y as int - y1 as int);
        let ghost d0: int = d as int;
        let ghost y0: int = y as int;
        proof {
            assert(i32::MIN <= y as int <= i32::MAX) by {
                if yi == 1 {
                    assert(y1 as int <= y as int <= y1 as int + dy);
                } else {
                    assert(y1 as int - dy <= y as int <= y1 as int);
                }
            }
        }
        r.push((x as i32, y as i32));
        proof {
            assert(seq_int(r@) =~= prefix + seq![(x as int, y as int)]);
        }
        if d > 0 {
            y = y + yi;
            d = d - 2 * dx;
            proof {
                assert(yi as int * (y as int - y1 as int) == s + 1) by (nonlinear_arith)
                    requires
                        yi == 1 || yi == -1,
                        y as int == y0 + yi,
                        s == yi as int * (y0 - y1 as int),
                ;
                assert(s + 1 <= dy) by (nonlinear_arith)
                    requires
                        d0 > 0,
                        d0 == 2 * (x - x1 as int + 1) * dy - dx - 2 * s * dx,
                        x - x1 as int + 1 <= dx,
                        1 <= dx,
                        0 <= dy <= dx,
                        0 <= s,
                ;
                assert(d0 - 2 * dx + 2 * dy == 2 * (x + 1 - x1 as int + 1) * dy - dx - 2 * (s + 1)
                    * dx) by (nonlinear_arith)
                    requires
                        d0 == 2 * (x - x1 as int + 1) * dy - dx - 2 * s * dx,
                ;
            }
        } else {
            proof {
                assert(d0 + 2 * dy == 2 * (x + 1 - x1 as int + 1) * dy - dx - 2 * s * dx)
                    by (nonlinear_arith)
                    requires
                        d0 == 2 * (x - x1 as int + 1) * dy - dx - 2 * s * dx,
                ;
            }
        }
        d = d + 2 * dy;
        proof {
            assert(walk_steps(
                kx,
                x as int,
                y0,
                yi as int,
                d0,
                dx as int,
                dy as int,
            ) == seq![(x as int, y0)] + walk_steps(
                (kx - 1) as nat,
                x as int + 1,
                y as int,
                yi as int,
                d as int,
                dx as int,
                dy as int,
            ));
            assert((prefix + seq![(x as int, y0)]) + walk_steps(
                (kx - 1) as nat,
                x as int + 1,
                y as int,
                yi as int,
                d as int,
                dx as int,
                dy as int,
            ) =~= prefix + (seq![(x as int, y0)] + walk_steps(
                (kx - 1) as nat,
                x as int + 1,
                y as int,
                yi as int,
                d as int,
                dx as int,
                dy as int,
            )));
        }
        x = x + 1;
    }
    proof {
        assert(seq_int(r@) + Seq::<(int, int)>::empty() =~= seq_int(r@));
    }
    r
}

/// The unfiltered pixel walk of the segment from `p1` to `p2`.
pub fn plot_points(p1: Pt2, p2: Pt2) -> (r: Vec<(i32, i32)>)
    ensures
        seq_int(r@) == spec_plot_points(p1, p2),
{
    let x1: i32 = p1.x;
    let y1: i32 = p1.y;
    let x2: i32 = p2.x;
    let y2: i32 = p2.y;
    let dxr: i64 = x2 as i64 - x1 as i64;
    let adx: i64 = if dxr < 0 {
        -dxr
    } else {
        dxr
    };
    let dyr: i64 = y2 as i64 - y1 as i64;
    let ady: i64 = if dyr < 0 {
        -dyr
    } else {
        dyr
    };
    if ady < adx {
        if x1 > x2 {
            plot_line_low(x2, y2, x1, y1)
        } else {
            plot_line_low(x1, y1, x2, y2)
        }
    } else {
        let w: Vec<(i32, i32)> = if y1 > y2 {
            plot_line_low(y2, x2, y1, x1)
        } else {
            plot_line_low(y1, x1, y2, x2)
        };
        let mut r: Vec<(i32, i32)> = Vec::new();
        let mut i: usize = 0;
        while i < w.len()
            invariant
                i <= w@.len(),
                r@.len() == i,
                forall|j: int| 0 <= j < i ==> r@[j] == ((#[trigger] w@[j]).1, w@[j].0),
            decreases w@.len() - i,
        {
            let p: (i32, i32) = w[i];
            r.push((p.1, p.0));
            i = i + 1;
        }
        proof {
            assert forall|j: int| 0 <= j < r@.len() implies seq_int(r@)[j] == spec_plot_points(
                p1,
                p2,
            )[j] by {
                assert(r@[j] == ((w@[j]).1, (w@[j]).0));
            }
            assert(seq_int(r@) =~= spec_plot_points(p1, p2));
        }
        r
    }
}

impl Line2d {
    /// The pixels of this segment inside the open framebuffer interior,
    /// in walk order.
    pub fn plot(&self, display_width: usize, display_height: usize) -> (r: Vec<(i32, i32)>)
        requires
            display_width <= 0x7fff_ffff,
            display_height <= 0x7fff_ffff,
        ensures
            seq_int(r@) == spec_plot(
                self.p1,
                self.p2,
                display_width as int,
                display_height as int,
            ),
            forall|j: int|
                0 <= j < r@.len() ==> 0 < (#[trigger] r@[j]).0 < display_width && 0 < r@[j].1
                    < display_height,
    {
        let pts: Vec<(i32, i32)> = plot_points(self.p1, self.p2);
        let w32: i32 = display_width as i32;
        let h32: i32 = display_height as i32;
        let ghost sq: Seq<(int, int)> = seq_int(pts@);
        let ghost wi: int = display_width as int;
        let ghost hi: int = display_height as int;
        let mut r: Vec<(i32, i32)> = Vec::new();
        let mut i: usize = 0;
        while i < pts.len()
            invariant
                i <= pts@.len(),
                sq == seq_int(pts@),
                wi == display_width as int,
                hi == display_height as int,
                w32 == display_width as int,
                h32 == display_height as int,
                seq_int(r@) == plot_filter(sq.take(i as int), wi, hi),
                forall|j: int|
                    0 <= j < r@.len() ==> 0 < (#[trigger] r@[j]).0 < wi && 0 < r@[j].1 < hi,
            decreases pts@.len() - i,
        {
            let ghost prefix: Seq<(int, int)> = seq_int(r@);
            let p: (i32, i32) = pts[i];
            proof {
                reveal_with_fuel(Seq::filter, 2);
                assert(sq.take(i as int + 1).drop_last() =~= sq.take(i as int));
                assert(sq.take(i as int + 1).last() == sq[i as int]);
                assert(sq[i as int] == (p.0 as int, p.1 as int));
            }
            if p.0 > 0 && p.0 < w32 && p.1 > 0 && p.1 < h32 {
                r.push(p);
                proof {
                    assert(seq_int(r@) =~= prefix.push((p.0 as int, p.1 as int)));
                    assert(plot_filter(sq.take(i as int + 1), wi, hi) == plot_filter(
                        sq.take(i as int),
                        wi,
                        hi,
                    ).push(sq[i as int]));
                }
            } else {
                proof {
                    assert(!in_interior(sq[i as int], wi, hi));
                    assert(plot_filter(sq.take(i as int + 1), wi, hi) == plot_filter(
                        sq.take(i as int),
                        wi,
                        hi,
                    ));
                }
            }
            i = i + 1;
        }
        proof {
            assert(sq.take(pts@.len() as int) =~= sq);
        }
        r
    }
}

/// The framebuffer after writing `color` at each point of `pts`, in order.
/// A point `(x, y)` lands at index `w * y + (w - x)`: the horizontal index
/// is mirrored, which the open-interior filter keeps inside the row.
pub open spec fn spec_write_pixels(buf: Seq<u32>, pts: Seq<(int, int)>, w: int, color: u32) -> Seq<
    u32,
>
    decreases pts.len(),
{
    if pts.len() == 0 {
        buf
    } else {
        spec_write_pixels(buf.update(w * pts[0].1 + (w - pts[0].0), color), pts.drop_first(), w, color)
    }
}

/// The framebuffer after one segment of the overlay is drawn onto it.
pub open spec fn spec_render_line(buf: Seq<u32>, l: Line2d, w: int, h: int) -> Seq<u32> {
    spec_write_pixels(buf, spec_plot(l.p1, l.p2, w, h), w, l.color)
}

impl Line2d {
    /// Draws this segment into the framebuffer: every interior pixel of its
    /// walk is written with the segment's color at the mirrored index
    /// `w * y + (w - x)`.
    pub fn render(&self, buffer: &mut Vec<u32>, display_width: usize, display_height: usize)
        requires
            old(buffer)@.len() == display_width * display_height,
            display_width <= 0x7fff_ffff,
            display_height <= 0x7fff_ffff,
        ensures
            final(buffer)@ == spec_render_line(
                old(buffer)@,
                *self,
                display_width as int,
                display_height as int,
            ),
            final(buffer)@.len() == old(buffer)@.len(),
    {
        let pts: Vec<(i32, i32)> = self.plot(display_width, display_height);
        let ghost full: Seq<(int, int)> = seq_int(pts@);
        let ghost wi: int = display_width as int;
        let ghost hi: int = display_height as int;
        let buf_len: usize = buffer.len();
        proof {
            assert(full.skip(0) =~= full);
        }
        let mut i: usize = 0;
        while i < pts.len()
            invariant
                i <= pts@.len(),
                full == seq_int(pts@),
                wi == display_width as int,
                hi == display_height as int,
                buffer@.len() == wi * hi,
                buffer@.len() == old(buffer)@.len(),
                buf_len == buffer@.len(),
                forall|j: int|
                    0 <= j < pts@.len() ==> 0 < (#[trigger] pts@[j]).0 < wi && 0 < pts@[j].1 < hi,
                spec_write_pixels(buffer@, full.skip(i as int), wi, self.color)
                    == spec_write_pixels(old(buffer)@, full, wi, self.color),
            decreases pts@.len() - i,
        {
            let ghost pre: Seq<u32> = buffer@;
            let p: (i32, i32) = pts[i];
            proof {
                assert(full.skip(i as int)[0] == full[i as int]);
                assert(full[i as int] == (p.0 as int, p.1 as int));
                assert(wi * (p.1 as int) + (wi - p.0 as int) < wi * hi) by (nonlinear_arith)
                    requires
                        0 < (p.0 as int) < wi,
                        0 < (p.1 as int) < hi,
                ;
                assert(wi * (p.1 as int) >= 0) by (nonlinear_arith)
                    requires
                        0 < (p.1 as int),
                        0 < wi,
                ;
            }
            let idx: usize = display_width * (p.1 as usize) + (display_width - p.0 as usize);
            buffer.set(idx, self.color);
            proof {
                assert(full.skip(i as int).drop_first() =~= full.skip(i as int + 1));
                assert(spec_write_pixels(pre, full.skip(i as int), wi, self.color)
                    == spec_write_pixels(buffer@, full.skip(i as int + 1), wi, self.color));
            }
            i = i + 1;
        }
        proof {
            assert(full.skip(pts@.len() as int) =~= Seq::<(int, int)>::empty());
        }
    }
}

/// Law: rasterizing a segment from either end yields the same pixels, in
/// the same order, before filtering.
pub proof fn lemma_plot_points_symmetric(p1: Pt2, p2: Pt2)
    ensures
        spec_plot_points(p1, p2) == spec_plot_points(p2, p1),
{
    let x1: int = p1.x as int;
    let y1: int = p1.y as int;
    let x2: int = p2.x as int;
    let y2: int = p2.y as int;
    assert(abs_i(y2 - y1) == abs_i(y1 - y2));
    assert(abs_i(x2 - x1) == abs_i(x1 - x2));
    if abs_i(y2 - y1) >= abs_i(x2 - x1) && y1 == y2 {
        assert(abs_i(x2 - x1) == 0);
        assert(x1 == x2);
    }
}

/// Law: rasterizing a segment from either end contributes the same pixels
/// to the framebuffer.
pub proof fn lemma_plot_symmetric(p1: Pt2, p2: Pt2, w: int, h: int)
    ensures
        spec_plot(p1, p2, w, h) == spec_plot(p2, p1, w, h),
{
    lemma_plot_points_symmetric(p1, p2);
}

proof fn lemma_walk_steps_len(k: nat, x: int, y: int, yi: int, d: int, dx: int, dy: int)
    ensures
        walk_steps(k, x, y, yi, d, dx, dy).len() == k,
    decreases k,
{
    if k > 0 {
        if d > 0 {
            lemma_walk_steps_len((k - 1) as nat, x + 1, y + yi, yi, d - 2 * dx + 2 * dy, dx, dy);
        } else {
            lemma_walk_steps_len((k - 1) as nat, x + 1, y, yi, d + 2 * dy, dx, dy);
        }
    }
}

/// Law: the unfiltered walk of a segment has exactly `max(|dx|, |dy|)`
/// points, one per major-axis step.
pub proof fn lemma_plot_points_count(p1: Pt2, p2: Pt2)
    ensures
        spec_plot_points(p1, p2).len() == max_i(
            abs_i(p2.x as int - p1.x as int),
            abs_i(p2.y as int - p1.y as int),
        ),
{
    let x1: int = p1.x as int;
    let y1: int = p1.y as int;
    let x2: int = p2.x as int;
    let y2: int = p2.y as int;
    if abs_i(y2 - y1) < abs_i(x2 - x1) {
        if x1 > x2 {
            lemma_walk_steps_len(
                (x1 - x2) as nat,
                x2,
                y2,
                if y1 - y2 < 0 {
                    -1
                } else {
                    1
                },
                2 * abs_i(y1 - y2) - (x1 - x2),
                x1 - x2,
                abs_i(y1 - y2),
            );
        } else {
            lemma_walk_steps_len(
                (x2 - x1) as nat,
                x1,
                y1,
                if y2 - y1 < 0 {
                    -1
                } else {
                    1
                },
                2 * abs_i(y2 - y1) - (x2 - x1),
                x2 - x1,
                abs_i(y2 - y1),
            );
        }
    } else {
        if y1 > y2 {
            lemma_walk_steps_len(
                if y1 - y2 > 0 {
                    (y1 - y2) as nat
                } else {
                    0
                },
                y2,
                x2,
                if x1 - x2 < 0 {
                    -1
                } else {
                    1
                },
                2 * abs_i(x1 - x2) - (y1 - y2),
                y1 - y2,
                abs_i(x1 - x2),
            );
        } else {
            lemma_walk_steps_len(
                if y2 - y1 > 0 {
                    (y2 - y1) as nat
                } else {
                    0
                },
                y1,
                x1,
                if x2 - x1 < 0 {
                    -1
                } else {
                    1
                },
                2 * abs_i(x2 - x1) - (y2 - y1),
                y2 - y1,
                abs_i(x2 - x1),
            );
        }
    }
}

} // verus!
