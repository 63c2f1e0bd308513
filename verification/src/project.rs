//! Screen-side half of the 3D wireframe projector: near-plane culling,
//! clipping, and rasterization of an already-projected segment.
//!
//! The floating-point view/projection transform hands over the integer
//! pixel endpoints it computed and the signs of the two homogeneous `w`
//! components; everything after that decision point is verified here.
use vstd::prelude::*;
use crate::geom::Line2d;
use crate::clip::spec_clamp_line;
use crate::raster::{seq_int, spec_plot, spec_render_line};

verus! {

/// The pixels of a projected world-space segment. The segment is culled
/// wholesale unless both homogeneous `w` components are strictly positive
/// (a segment straddling the camera is dropped, not clipped); otherwise it
/// is clipped to the framebuffer rectangle and rasterized.
pub fn project_segment(
    line: Line2d,
    w1_positive: bool,
    w2_positive: bool,
    display_width: usize,
    display_height: usize,
) -> (r: Vec<(i32, i32)>)
    requires
        display_width <= 0x7fff_ffff,
        display_height <= 0x7fff_ffff,
    ensures
        !(w1_positive && w2_positive) ==> r@.len() == 0,
        w1_positive && w2_positive ==> match spec_clamp_line(
            line,
            display_width as int,
            display_height as int,
        ) {
            None => r@.len() == 0,
            Some(cl) => seq_int(r@) == spec_plot(
                cl.p1,
                cl.p2,
                display_width as int,
                display_height as int,
            ),
        },
{
    let clamped: Option<Line2d> = line.clamp(display_width, display_height);
    if w1_positive && w2_positive {
        match clamped {
            Some(cl) => cl.plot(display_width, display_height),
            None => Vec::new(),
        }
    } else {
        Vec::new()
    }
}

/// Draws a projected segment into the framebuffer; nothing is written when
/// the segment is culled behind the camera or dropped by the clipper.
pub fn render_projected(
    line: Line2d,
    w1_positive: bool,
    w2_positive: bool,
    buffer: &mut Vec<u32>,
    display_width: usize,
    display_height: usize,
)
    requires
        old(buffer)@.len() == display_width * display_height,
        display_width <= 0x7fff_ffff,
        display_height <= 0x7fff_ffff,
    ensures
        final(buffer)@.len() == old(buffer)@.len(),
        !(w1_positive && w2_positive) ==> final(buffer)@ == old(buffer)@,
        w1_positive && w2_positive ==> match spec_clamp_line(
            line,
            display_width as int,
            display_height as int,
        ) {
            None => final(buffer)@ == old(buffer)@,
            Some(cl) => final(buffer)@ == spec_render_line(
                old(buffer)@,
                cl,
                display_width as int,
                display_height as int,
            ),
        },
{
    let clamped: Option<Line2d> = line.clamp(display_width, display_height);
    if w1_positive && w2_positive {
        match clamped {
            Some(cl) => cl.render(buffer, display_width, display_height),
            None => {},
        }
    }
}

} // verus!
