use tailscale_ui::icon::{
    argb, draw_rounded_rectangle, draw_traffic_arrows, fill_polygon, icon_pixels, set_pixel,
    ICON_BYTES,
};

fn px(p: &[u8], x: usize, y: usize) -> [u8; 4] {
    let i = (y * 64 + x) * 4;
    [p[i], p[i + 1], p[i + 2], p[i + 3]]
}

/// Even-odd scanline coverage with single-precision crossings, as a test oracle.
fn float_covers(points: &[(i32, i32)], x: i32, y: i32) -> bool {
    let mut xs: Vec<i32> = Vec::new();
    let n = points.len();
    for i in 0..n {
        let (ax, ay) = points[i];
        let (bx, by) = points[(i + 1) % n];
        let crosses = (ay <= y && y < by) || (by <= y && y < ay);
        if crosses {
            let t = (y - ay) as f32 / (by - ay) as f32;
            let v = ax as f32 + t * (bx - ax) as f32;
            let w = ax as f32 + (y - ay) as f32 * (bx - ax) as f32 / (by - ay) as f32;
            assert_eq!(v.round(), w.round());
            xs.push(w.round() as i32);
        }
    }
    xs.sort();
    xs.chunks(2).any(|c| c.len() == 2 && c[0] <= x && x <= c[1])
}

const UP: [(i32, i32); 7] = [(16, 29), (28, 29), (28, 45), (35, 45), (24, 59), (12, 45), (19, 45)];
const DOWN: [(i32, i32); 7] = [(48, 35), (36, 35), (36, 19), (29, 19), (40, 5), (52, 19), (45, 19)];

#[test]
fn argb_keeps_byte_order() {
    assert_eq!(argb(1, 2, 3, 4), [1, 2, 3, 4]);
}

#[test]
fn set_pixel_writes_inside_and_ignores_outside() {
    let mut p = vec![0u8; ICON_BYTES];
    set_pixel(&mut p, 3, 2, [9, 8, 7, 6]);
    assert_eq!(px(&p, 3, 2), [9, 8, 7, 6]);
    assert_eq!(p.iter().filter(|b| **b != 0).count(), 4);
    let before = p.clone();
    set_pixel(&mut p, -1, 0, [1, 1, 1, 1]);
    set_pixel(&mut p, 64, 0, [1, 1, 1, 1]);
    set_pixel(&mut p, 0, 64, [1, 1, 1, 1]);
    assert_eq!(p, before);
}

#[test]
fn rounded_rectangle_rounds_corners_and_frames() {
    let mut p = vec![0u8; ICON_BYTES];
    draw_rounded_rectangle(&mut p, 10, 10, 30, 30, 5, [1, 1, 1, 1], [2, 2, 2, 2]);
    assert_eq!(px(&p, 10, 20), [2, 2, 2, 2]);
    assert_eq!(px(&p, 20, 30), [2, 2, 2, 2]);
    assert_eq!(px(&p, 10, 10), [2, 2, 2, 2]);
    assert_eq!(px(&p, 11, 11), [0, 0, 0, 0]);
    assert_eq!(px(&p, 13, 13), [1, 1, 1, 1]);
    assert_eq!(px(&p, 20, 20), [1, 1, 1, 1]);
    assert_eq!(px(&p, 31, 20), [0, 0, 0, 0]);
}

#[test]
fn polygon_fill_matches_float_oracle() {
    let tri = [(5, 5), (40, 12), (12, 50)];
    for pts in [&UP[..], &DOWN[..], &tri[..]] {
        let mut p = vec![0u8; ICON_BYTES];
        fill_polygon(&mut p, pts, [7, 7, 7, 7]);
        for y in 0..64 {
            for x in 0..64 {
                let expected = if float_covers(pts, x, y) { [7, 7, 7, 7] } else { [0, 0, 0, 0] };
                assert_eq!(px(&p, x as usize, y as usize), expected, "pixel {x},{y}");
            }
        }
    }
}

#[test]
fn arrows_cover_both_polygons() {
    let mut p = vec![0u8; ICON_BYTES];
    draw_traffic_arrows(&mut p, [5, 5, 5, 5]);
    assert_eq!(px(&p, 22, 35), [5, 5, 5, 5]);
    assert_eq!(px(&p, 40, 25), [5, 5, 5, 5]);
    assert_eq!(px(&p, 2, 2), [0, 0, 0, 0]);
}

#[test]
fn icon_has_frame_square_and_arrows() {
    let bg = argb(0xff, 0, 0, 0);
    let fg = argb(0xff, 0x44, 0xff, 0x44);
    let p = icon_pixels(bg, fg);
    assert_eq!(p.len(), 64 * 64 * 4);
    assert_eq!(px(&p, 0, 0), [0, 0, 0, 0]);
    assert_eq!(px(&p, 63, 63), [0, 0, 0, 0]);
    assert_eq!(px(&p, 60, 30), [0, 0, 0, 0]);
    assert_eq!(px(&p, 5, 30), [0xff, 0x48, 0x48, 0x48]);
    assert_eq!(px(&p, 59, 59), [0xff, 0x48, 0x48, 0x48]);
    assert_eq!(px(&p, 8, 8), bg);
    assert_eq!(px(&p, 22, 35), fg);
    for y in 0..64i32 {
        for x in 0..64i32 {
            let arrow = float_covers(&UP, x, y) || float_covers(&DOWN, x, y);
            let frame = (5..=59).contains(&x) && (y == 5 || y == 59)
                || (5..=59).contains(&y) && (x == 5 || x == 59);
            let expected = if arrow {
                fg
            } else if frame {
                [0xff, 0x48, 0x48, 0x48]
            } else if (6..=58).contains(&x) && (6..=58).contains(&y) {
                bg
            } else {
                [0, 0, 0, 0]
            };
            assert_eq!(px(&p, x as usize, y as usize), expected, "pixel {x},{y}");
        }
    }
}

/// Even-odd scanline coverage computed the way a single-precision implementation does.
fn f32_covers(points: &[(i32, i32)], x: i32, y: i32) -> bool {
    let mut xs: Vec<i32> = Vec::new();
    let n = points.len();
    for i in 0..n {
        let (x1, y1) = points[i];
        let (x2, y2) = points[(i + 1) % n];
        if (y1 <= y && y < y2) || (y2 <= y && y < y1) {
            let v = x1 as f32 + (y - y1) as f32 * (x2 - x1) as f32 / (y2 - y1) as f32;
            xs.push(v.round() as i32);
        }
    }
    xs.sort_unstable();
    xs.chunks(2).any(|c| c.len() == 2 && c[0] <= x && x <= c[1])
}

#[test]
fn rounded_rectangle_with_huge_radius_draws_only_the_frame() {
    let mut p = vec![0u8; ICON_BYTES];
    draw_rounded_rectangle(&mut p, 5, 5, 59, 59, 5000, [1, 1, 1, 1], [2, 2, 2, 2]);
    for y in 0..64usize {
        for x in 0..64usize {
            let frame = (5..=59).contains(&x) && (y == 5 || y == 59)
                || (5..=59).contains(&y) && (x == 5 || x == 59);
            let expected = if frame { [2, 2, 2, 2] } else { [0, 0, 0, 0] };
            assert_eq!(px(&p, x, y), expected, "pixel {x},{y}");
        }
    }
}

#[test]
fn rounded_rectangle_frame_is_clipped_to_the_canvas() {
    let mut p = vec![0u8; ICON_BYTES];
    draw_rounded_rectangle(&mut p, 5, 5, 200, 200, 20000, [1, 1, 1, 1], [2, 2, 2, 2]);
    for y in 0..64usize {
        for x in 0..64usize {
            let frame = x >= 5 && y == 5 || y >= 5 && x == 5;
            let expected = if frame { [2, 2, 2, 2] } else { [0, 0, 0, 0] };
            assert_eq!(px(&p, x, y), expected, "pixel {x},{y}");
        }
    }
}

#[test]
fn polygon_fill_matches_single_precision_within_the_vertex_bound() {
    let shapes: [&[(i32, i32)]; 4] = [
        &[(300, 0), (0, 0), (0, 40)],
        &[(-500, -300), (510, 20), (30, 512)],
        &[(-512, 7), (512, 9), (11, 63), (-3, 512)],
        &[(1, -512), (63, 512), (-512, 33)],
    ];
    for pts in shapes {
        let mut p = vec![0u8; ICON_BYTES];
        fill_polygon(&mut p, pts, [7, 7, 7, 7]);
        for y in 0..64 {
            for x in 0..64 {
                let expected = if f32_covers(pts, x, y) { [7, 7, 7, 7] } else { [0, 0, 0, 0] };
                assert_eq!(px(&p, x as usize, y as usize), expected, "{pts:?} pixel {x},{y}");
            }
        }
    }
}

#[test]
fn polygon_fill_with_far_vertices_changes_only_vertex_rows() {
    let pts = [(-1000, 30), (1000, 10), (900, 999), (-999, 40)];
    let mut p = vec![3u8; ICON_BYTES];
    fill_polygon(&mut p, &pts, [7, 7, 7, 7]);
    let mut filled = 0;
    for y in 0..64usize {
        for x in 0..64usize {
            let v = px(&p, x, y);
            if v != [3, 3, 3, 3] {
                assert_eq!(v, [7, 7, 7, 7]);
                assert!(y >= 10, "pixel {x},{y}");
                filled += 1;
            }
        }
    }
    assert!(filled > 0);
    assert_eq!(px(&p, 32, 5), [3, 3, 3, 3]);
}

#[test]
fn empty_polygon_changes_nothing() {
    let mut p = vec![3u8; ICON_BYTES];
    fill_polygon(&mut p, &[], [7, 7, 7, 7]);
    assert_eq!(p, vec![3u8; ICON_BYTES]);
}
