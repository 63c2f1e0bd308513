//! Integer pixel-space geometry for the wireframe overlay.
use vstd::prelude::*;

verus! {

/// A point in integer pixel coordinates.
#[derive(Clone, Copy, PartialEq, Eq, Structural, Debug)]
pub struct Pt2 {
    pub x: i32,
    pub y: i32,
}

/// A line segment in integer pixel coordinates, carrying its packed display
/// color.
#[derive(Clone, Copy, PartialEq, Eq, Structural, Debug)]
pub struct Line2d {
    pub p1: Pt2,
    pub p2: Pt2,
    pub color: u32,
}

impl Pt2 {
    pub fn new(x: i32, y: i32) -> (p: Pt2)
        ensures
            p.x == x,
            p.y == y,
    {
        Pt2 { x, y }
    }
}

impl Line2d {
    pub fn new(p1: Pt2, p2: Pt2, color: u32) -> (l: Line2d)
        ensures
            l.p1 == p1,
            l.p2 == p2,
            l.color == color,
    {
        Line2d { p1, p2, color }
    }
}

} // verus!
