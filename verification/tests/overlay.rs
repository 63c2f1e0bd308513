use wireline::color::pack_rgb;
use wireline::geom::{Line2d, Pt2};
use wireline::project::{project_segment, render_projected};
use wireline::quad::Quad;
use wireline::raster::plot_points;

const W: usize = 400;
const H: usize = 400;

fn line(x1: i32, y1: i32, x2: i32, y2: i32, color: u32) -> Line2d {
    Line2d::new(Pt2::new(x1, y1), Pt2::new(x2, y2), color)
}

#[test]
fn horizontal_line_no_clip_plots_ten_points() {
    let l = line(10, 10, 20, 10, 0xFFFFFF);
    let pts = l.plot(W, H);
    assert_eq!(pts.len(), 10);
    for (k, &(x, y)) in pts.iter().enumerate() {
        assert_eq!(y, 10);
        assert_eq!(x, 10 + k as i32);
    }
}

#[test]
fn plot_is_symmetric_in_endpoints() {
    let cases = [
        ((3, 7), (10, 2)),
        ((0, 0), (5, 9)),
        ((-4, -4), (6, 3)),
        ((2, 2), (2, 12)),
        ((8, 1), (1, 8)),
    ];
    for &((x1, y1), (x2, y2)) in cases.iter() {
        let a = plot_points(Pt2::new(x1, y1), Pt2::new(x2, y2));
        let b = plot_points(Pt2::new(x2, y2), Pt2::new(x1, y1));
        assert_eq!(a, b);
    }
}

#[test]
fn plot_count_matches_major_axis_span() {
    let cases = [
        ((0, 0), (10, 3)),
        ((0, 0), (3, 10)),
        ((5, 5), (5, 5)),
        ((-2, 1), (7, -8)),
        ((4, 9), (-6, 9)),
    ];
    for &((x1, y1), (x2, y2)) in cases.iter() {
        let pts = plot_points(Pt2::new(x1, y1), Pt2::new(x2, y2));
        let expect = ((x2 - x1).abs()).max((y2 - y1).abs()) as usize;
        assert_eq!(pts.len(), expect);
    }
}

#[test]
fn steep_walk_steps_the_minor_axis_by_accumulated_error() {
    let pts = plot_points(Pt2::new(0, 0), Pt2::new(3, 10));
    let expect = vec![
        (0, 0),
        (0, 1),
        (1, 2),
        (1, 3),
        (1, 4),
        (1, 5),
        (2, 6),
        (2, 7),
        (2, 8),
        (3, 9),
    ];
    assert_eq!(pts, expect);
}

#[test]
fn diagonal_walk_steps_both_axes_together() {
    let pts = plot_points(Pt2::new(0, 0), Pt2::new(4, 4));
    assert_eq!(pts, vec![(0, 0), (1, 1), (2, 2), (3, 3)]);
}

#[test]
fn clamp_solves_the_boundary_ratio_exactly() {
    let l = line(100, 100, 500, 300, 2);
    assert_eq!(l.clamp(W, H), Some(line(100, 100, 400, 250, 2)));
}

#[test]
fn clamp_keeps_in_bounds_segment_unchanged() {
    let l = line(10, 10, 20, 10, 7);
    assert_eq!(l.clamp(W, H), Some(l));
    let edge = line(0, 0, 400, 400, 7);
    assert_eq!(edge.clamp(W, H), Some(edge));
}

#[test]
fn fully_out_of_bounds_line_clips_to_none() {
    let l = line(-50, -50, -10, -10, 0xFF0000);
    assert_eq!(l.clamp(W, H), None);
}

#[test]
fn pull_toward_an_outside_endpoint_is_dropped() {
    let l = line(-300, 0, 50, 500, 0xFF0000);
    assert_eq!(l.clamp(W, H), None);
}

#[test]
fn offscreen_vertical_segment_clips_to_none() {
    let l = line(-50, -50, -50, -10, 1);
    assert_eq!(l.clamp(W, H), None);
}

#[test]
fn clamp_pulls_far_endpoint_onto_the_boundary() {
    let l = line(200, 200, 600, 200, 3);
    assert_eq!(l.clamp(W, H), Some(line(200, 200, 400, 200, 3)));
    let diag = line(200, 200, 600, 600, 3);
    assert_eq!(diag.clamp(W, H), Some(line(200, 200, 400, 400, 3)));
}

#[test]
fn clamp_with_one_endpoint_inside_stays_in_window() {
    let cases = [
        ((50, 50), (1000, -700)),
        ((50, 50), (-900, 1200)),
        ((399, 1), (2000, 2000)),
        ((-800, 30), (10, 20)),
    ];
    for &((x1, y1), (x2, y2)) in cases.iter() {
        let c = line(x1, y1, x2, y2, 9)
            .clamp(W, H)
            .expect("one endpoint is inside, so clipping yields a segment");
        for p in [c.p1, c.p2].iter() {
            assert!(0 <= p.x && p.x <= W as i32, "x out of window: {}", p.x);
            assert!(0 <= p.y && p.y <= H as i32, "y out of window: {}", p.y);
        }
    }
}

#[test]
fn render_writes_the_mirrored_indices() {
    let mut buffer: Vec<u32> = vec![0; W * H];
    let l = line(10, 10, 12, 10, 0xFF0000);
    l.render(&mut buffer, W, H);
    assert_eq!(buffer[10 * W + (W - 10)], 0xFF0000);
    assert_eq!(buffer[10 * W + (W - 11)], 0xFF0000);
    assert_eq!(buffer.iter().filter(|&&c| c != 0).count(), 2);
}

#[test]
fn boundary_pixels_are_not_drawn() {
    let mut buffer: Vec<u32> = vec![0; W * H];
    let l = line(0, 0, 0, 399, 0xFF0000);
    l.render(&mut buffer, W, H);
    assert_eq!(buffer.iter().filter(|&&c| c != 0).count(), 0);
}

#[test]
fn pack_rgb_uses_one_byte_per_channel() {
    assert_eq!(pack_rgb(255, 255, 255), 0xFFFFFF);
    assert_eq!(pack_rgb(1, 2, 3), 0x010203);
    assert_eq!(pack_rgb(0, 0, 0), 0);
}

#[test]
fn segment_behind_the_camera_is_culled() {
    let l = line(10, 10, 20, 10, 5);
    assert!(project_segment(l, false, false, W, H).is_empty());
    assert!(project_segment(l, true, false, W, H).is_empty());
    assert!(project_segment(l, false, true, W, H).is_empty());
    assert_eq!(project_segment(l, true, true, W, H).len(), 10);
}

#[test]
fn culled_segment_leaves_the_framebuffer_untouched() {
    let mut buffer: Vec<u32> = vec![0; W * H];
    let before = buffer.clone();
    render_projected(line(10, 10, 20, 10, 5), true, false, &mut buffer, W, H);
    assert_eq!(buffer, before);
    render_projected(line(10, 10, 20, 10, 5), true, true, &mut buffer, W, H);
    assert_ne!(buffer, before);
}

#[test]
fn quad_edges_connect_the_corners_in_a_cycle() {
    let q = Quad {
        points: vec![
            Pt2::new(10, 10),
            Pt2::new(20, 10),
            Pt2::new(20, 20),
            Pt2::new(10, 20),
        ],
        color: 0x00FF00,
    };
    let edges = q.lines();
    assert_eq!(edges.len(), 4);
    assert_eq!(edges[0], line(10, 10, 20, 10, 0x00FF00));
    assert_eq!(edges[1], line(20, 10, 20, 20, 0x00FF00));
    assert_eq!(edges[2], line(20, 20, 10, 20, 0x00FF00));
    assert_eq!(edges[3], line(10, 20, 10, 10, 0x00FF00));
}

#[test]
fn quad_draw_equals_rendering_its_edges_in_order() {
    let q = Quad {
        points: vec![
            Pt2::new(10, 10),
            Pt2::new(20, 10),
            Pt2::new(20, 20),
            Pt2::new(10, 20),
        ],
        color: 0x00FF00,
    };
    let mut drawn: Vec<u32> = vec![0; W * H];
    q.draw(&mut drawn, W, H);
    let mut manual: Vec<u32> = vec![0; W * H];
    for e in q.lines() {
        e.render(&mut manual, W, H);
    }
    assert_eq!(drawn, manual);
    assert!(drawn.iter().any(|&c| c == 0x00FF00));
}

#[test]
fn accumulate_resolve_single_white_sample_packs_to_white() {
    // One frame of radiance (1, 1, 1): the squared sum is 1 per channel,
    // the resolve divides by the sample count 1, takes the square root,
    // clamps to [0, 1], and packs full white.
    let sum: f32 = 1.0f32 * 1.0f32;
    let n: u32 = 1;
    let ch = (sum / n as f32).sqrt().min(1.0);
    let byte = (ch * 255.0) as u8;
    assert_eq!(pack_rgb(byte, byte, byte), 0xFFFFFF);
}

#[test]
fn accumulate_resolve_two_identical_half_samples() {
    // Two frames of radiance (0.5, 0.5, 0.5): each accumulation adds the
    // square 0.25, so the sum is 0.5; resolving with sample count 2 gives
    // sqrt(0.25) = 0.5 per channel.
    let mut sum: f32 = 0.0;
    for _ in 0..2 {
        sum += 0.5f32 * 0.5f32;
    }
    let n: u32 = 2;
    let ch = (sum / n as f32).sqrt().min(1.0);
    assert!((ch - 0.5).abs() < 1e-6);
    let byte = (ch * 255.0) as u8;
    assert_eq!(pack_rgb(byte, byte, byte), pack_rgb(127, 127, 127));
}
