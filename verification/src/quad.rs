//! A four-cornered wireframe overlay primitive drawn as a cycle of segments.
use vstd::prelude::*;
use crate::geom::{Line2d, Pt2};
use crate::raster::spec_render_line;

verus! {

/// A quadrilateral given by its four corners, drawn edge by edge with one
/// color.
pub struct Quad {
    pub points: Vec<Pt2>,
    pub color: u32,
}

/// The framebuffer after the four edges of a quad are drawn in corner order.
pub open spec fn spec_draw_quad(buf: Seq<u32>, pts: Seq<Pt2>, color: u32, w: int, h: int) -> Seq<
    u32,
> {
    let b1: Seq<u32> = spec_render_line(buf, Line2d { p1: pts[0], p2: pts[1], color }, w, h);
    let b2: Seq<u32> = spec_render_line(b1, Line2d { p1: pts[1], p2: pts[2], color }, w, h);
    let b3: Seq<u32> = spec_render_line(b2, Line2d { p1: pts[2], p2: pts[3], color }, w, h);
    spec_render_line(b3, Line2d { p1: pts[3], p2: pts[0], color }, w, h)
}

impl Quad {
    /// The four edges connecting the corners in a cycle.
    pub fn lines(&self) -> (r: Vec<Line2d>)
        requires
            self.points@.len() >= 4,
        ensures
            r@.len() == 4,
            r@[0] == (Line2d { p1: self.points@[0], p2: self.points@[1], color: self.color }),
            r@[1] == (Line2d { p1: self.points@[1], p2: self.points@[2], color: self.color }),
            r@[2] == (Line2d { p1: self.points@[2], p2: self.points@[3], color: self.color }),
            r@[3] == (Line2d { p1: self.points@[3], p2: self.points@[0], color: self.color }),
    {
        let mut r: Vec<Line2d> = Vec::new();
        r.push(Line2d { p1: self.points[0], p2: self.points[1], color: self.color });
        r.push(Line2d { p1: self.points[1], p2: self.points[2], color: self.color });
        r.push(Line2d { p1: self.points[2], p2: self.points[3], color: self.color });
        r.push(Line2d { p1: self.points[3], p2: self.points[0], color: self.color });
        r
    }

    /// Draws the four edges into the framebuffer in corner order.
    pub fn draw(&self, buffer: &mut Vec<u32>, display_width: usize, display_height: usize)
        requires
            old(buffer)@.len() == display_width * display_height,
            display_width <= 0x7fff_ffff,
            display_height <= 0x7fff_ffff,
            self.points@.len() >= 4,
        ensures
            final(buffer)@.len() == old(buffer)@.len(),
            final(buffer)@ == spec_draw_quad(
                old(buffer)@,
                self.points@,
                self.color,
                display_width as int,
                display_height as int,
            ),
    {
        let edges: Vec<Line2d> = self.lines();
        edges[0].render(buffer, display_width, display_height);
        edges[1].render(buffer, display_width, display_height);
        edges[2].render(buffer, display_width, display_height);
        edges[3].render(buffer, display_width, display_height);
    }
}

} // verus!
