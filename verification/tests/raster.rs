use yserver::kms::arcs::{arc_fill_rects, arc_outline_rects, read_arcs, ArcBox, Extents};
use yserver::kms::drawing::{
    clip_rects_to_image, outline_rects, point_rects, polygon_rects, polyline_rects, read_i16_pair,
    read_path, read_rect, read_rects, segment_rects,
};
use yserver::kms::raster::{bresenham_segment, clamp_i16, scanline_fill_polygon, Rectangle16};

fn rect(x: i16, y: i16, width: u16, height: u16) -> Rectangle16 {
    Rectangle16 { x, y, width, height }
}

fn pixels(rects: &[Rectangle16]) -> Vec<(i16, i16)> {
    rects.iter().map(|r| (r.x, r.y)).collect()
}

fn line(x0: i32, y0: i32, x1: i32, y1: i32) -> Vec<Rectangle16> {
    let mut out: Vec<Rectangle16> = Vec::new();
    bresenham_segment(x0, y0, x1, y1, &mut out);
    out
}

fn shorts(values: &[i16]) -> Vec<u8> {
    values.iter().flat_map(|v| v.to_le_bytes()).collect()
}

/// The pixels by the usual error-accumulating loop.
fn by_error_term(x0: i32, y0: i32, x1: i32, y1: i32) -> Vec<(i16, i16)> {
    let (dx, dy) = ((x1 - x0).abs(), -(y1 - y0).abs());
    let (sx, sy) = (if x0 < x1 { 1 } else { -1 }, if y0 < y1 { 1 } else { -1 });
    let (mut err, mut x, mut y) = (dx + dy, x0, y0);
    let mut out = Vec::new();
    loop {
        out.push((x.clamp(-32768, 32767) as i16, y.clamp(-32768, 32767) as i16));
        if x == x1 && y == y1 {
            return out;
        }
        let e2 = 2 * err;
        if e2 >= dy {
            err += dy;
            x += sx;
        }
        if e2 <= dx {
            err += dx;
            y += sy;
        }
    }
}

#[test]
fn lines_are_those_of_bresenham() {
    for x1 in -9..=9 {
        for y1 in -9..=9 {
            assert_eq!(pixels(&line(2, -1, x1, y1)), by_error_term(2, -1, x1, y1), "{x1} {y1}");
        }
    }
    assert_eq!(pixels(&line(-40000, 5, -32760, 3)), by_error_term(-40000, 5, -32760, 3));
}

#[test]
fn a_line_goes_from_end_to_end() {
    let l = line(0, 0, 5, 2);
    assert_eq!(pixels(&l), [(0, 0), (1, 0), (2, 1), (3, 1), (4, 2), (5, 2)]);
    assert!(l.iter().all(|r| r.width == 1 && r.height == 1));
    assert_eq!(pixels(&line(3, 3, 3, 3)), [(3, 3)]);
}

#[test]
fn neighbours_on_a_line_touch() {
    let l = pixels(&line(-7, 4, 20, -9));
    for pair in l.windows(2) {
        assert!((pair[0].0 - pair[1].0).abs() <= 1 && (pair[0].1 - pair[1].1).abs() <= 1);
    }
}

#[test]
fn coordinates_are_clamped() {
    assert_eq!([-40000i64, -32768, 0, 32767, 40000].map(clamp_i16), [-32768, -32768, 0, 32767, 32767]);
}

#[test]
fn polygons_fill_by_even_odd() {
    let mut out: Vec<Rectangle16> = Vec::new();
    scanline_fill_polygon(&vec![(0, 0), (4, 0), (4, 2), (0, 2)], &mut out);
    assert_eq!(out, [rect(0, 0, 4, 1), rect(0, 1, 4, 1)]);

    let mut triangle: Vec<Rectangle16> = Vec::new();
    scanline_fill_polygon(&vec![(0, 0), (4, 4), (0, 4)], &mut triangle);
    assert_eq!(triangle, [rect(0, 1, 1, 1), rect(0, 2, 2, 1), rect(0, 3, 3, 1)]);

    // A square with a square hole, joined by an edge that is walked twice.
    let mut ring: Vec<Rectangle16> = Vec::new();
    scanline_fill_polygon(
        &vec![(0, 0), (6, 0), (6, 3), (0, 3), (0, 0), (2, 1), (4, 1), (4, 2), (2, 2), (2, 1)],
        &mut ring,
    );
    assert!(ring.contains(&rect(0, 0, 6, 1)));
    assert!(!ring.iter().any(|r| r.y == 1 && r.x <= 2 && r.x as i32 + r.width as i32 > 3));
}

#[test]
fn two_points_are_no_polygon() {
    let mut out: Vec<Rectangle16> = Vec::new();
    scanline_fill_polygon(&vec![(0, 0), (9, 9)], &mut out);
    assert!(out.is_empty());
}

#[test]
fn slanted_edges_round_toward_the_start() {
    let mut out: Vec<Rectangle16> = Vec::new();
    scanline_fill_polygon(&vec![(0, 0), (-5, 3), (5, 3)], &mut out);
    assert_eq!(out, [rect(-1, 1, 3, 1), rect(-3, 2, 7, 1)]);
}

#[test]
fn rectangles_are_clipped() {
    let rects = vec![
        rect(-2, -3, 5, 5),
        rect(8, 8, 10, 10),
        rect(20, 0, 5, 5),
        rect(0, 0, 0, 4),
        rect(-5, 0, 5, 5),
        rect(2, 2, 3, 3),
    ];
    assert_eq!(
        clip_rects_to_image(&rects, 10, 12),
        [rect(0, 0, 3, 2), rect(8, 8, 2, 4), rect(2, 2, 3, 3)]
    );
}

#[test]
fn pairs_and_rectangles_are_read() {
    let data = shorts(&[1, -2, 3, 4]);
    assert_eq!(read_i16_pair(&data, 0), Some((1, -2)));
    assert_eq!(read_i16_pair(&data, 4), Some((3, 4)));
    assert_eq!(read_i16_pair(&data, 5), None);
    assert_eq!(read_rect(&data, 0), Some(rect(1, -2, 3, 4)));
    assert_eq!(read_rect(&data, 1), None);
    assert_eq!(read_rects(&shorts(&[1, -2, 3, 4, 9])), [rect(1, -2, 3, 4)]);
    assert_eq!(read_rects(&shorts(&[0, 0, -1, -1])), [rect(0, 0, 65535, 65535)]);
}

#[test]
fn paths_are_absolute_or_relative() {
    let points = shorts(&[10, 20, 1, -1, 2, 2]);
    assert_eq!(read_path(&points, 0).unwrap(), [(10, 20), (1, -1), (2, 2)]);
    assert_eq!(read_path(&points, 1).unwrap(), [(10, 20), (11, 19), (13, 21)]);
    assert_eq!(read_path(&points, 2).unwrap(), [(10, 20), (1, -1), (2, 2)]);
}

#[test]
fn polylines_join_their_points() {
    let points = shorts(&[0, 0, 2, 0, 0, 2]);
    assert_eq!(
        pixels(&polyline_rects(&points, 1).unwrap()),
        [(0, 0), (1, 0), (2, 0), (2, 0), (2, 1), (2, 2)]
    );
    assert!(polyline_rects(&shorts(&[5, 5]), 0).unwrap().is_empty());
}

#[test]
fn segments_are_drawn_apart() {
    let data = shorts(&[0, 0, 1, 1, 5, 5, 5, 6, 9, 9]);
    assert_eq!(pixels(&segment_rects(&data)), [(0, 0), (1, 1), (5, 5), (5, 6)]);
}

#[test]
fn outlines_have_four_edges() {
    assert_eq!(
        outline_rects(&shorts(&[2, 3, 5, 4, 0, 0, 0, 9])),
        [rect(2, 3, 5, 1), rect(2, 6, 5, 1), rect(2, 3, 1, 4), rect(6, 3, 1, 4)]
    );
    // Far edges wrap around.
    let far = outline_rects(&shorts(&[32767, 0, 2, 1]));
    assert_eq!(far[3], rect(-32768, 0, 1, 1));
}

#[test]
fn points_are_single_pixels() {
    assert_eq!(point_rects(&shorts(&[3, -4, 7, 8, 1])), [rect(3, -4, 1, 1), rect(7, 8, 1, 1)]);
}

#[test]
fn polygons_are_read_and_filled() {
    let points = shorts(&[0, 0, 4, 0, 0, 2, -4, 0]);
    assert_eq!(polygon_rects(&points, 1).unwrap(), [rect(0, 0, 4, 1), rect(0, 1, 4, 1)]);
}

#[test]
fn empty_arcs_are_left_out() {
    let data = shorts(&[1, 2, 3, 4, 0, 0, 5, 6, 0, 7, 0, 0, 8, 9, 10, 11, 0, 23040, 1]);
    let arcs = read_arcs(&data);
    assert_eq!(
        arcs,
        [
            ArcBox { x: 1, y: 2, width: 3, height: 4 },
            ArcBox { x: 8, y: 9, width: 10, height: 11 },
        ]
    );
}

#[test]
fn arc_outlines_close() {
    let arcs = vec![ArcBox { x: 0, y: 10, width: 6, height: 4 }];
    let extents: Vec<Extents> = vec![vec![Some((1, 5)), Some((0, 6)), Some((0, 6)), Some((1, 5))]];
    assert_eq!(
        arc_outline_rects(&arcs, &extents),
        [
            rect(1, 10, 5, 1),
            rect(0, 11, 2, 1),
            rect(5, 11, 2, 1),
            rect(0, 12, 1, 1),
            rect(6, 12, 1, 1),
            rect(1, 13, 5, 1),
        ]
    );
}

#[test]
fn arc_fills_stay_inside() {
    let arcs = vec![
        ArcBox { x: -2, y: -1, width: 6, height: 3 },
        ArcBox { x: 9, y: 0, width: 5, height: 1 },
    ];
    let extents: Vec<Extents> =
        vec![vec![Some((-1, 3)), Some((-2, 4)), None], vec![Some((8, 15))]];
    assert_eq!(arc_fill_rects(&arcs, &extents, 10, 10), [rect(0, 0, 4, 1), rect(8, 0, 2, 1)]);
    // Without extents nothing is drawn.
    assert!(arc_fill_rects(&arcs, &vec![], 10, 10).is_empty());
}

#[test]
fn arc_outlines_join_their_scanlines() {
    let arcs = vec![ArcBox { x: 0, y: 0, width: 12, height: 5 }];
    let rows: Extents = vec![Some((4, 8)), Some((1, 11)), Some((0, 12)), Some((1, 11)), Some((4, 8))];
    let rects = arc_outline_rects(&arcs, &vec![rows.clone()]);
    let lit = |x: i32, y: i32| {
        rects.iter().any(|r| {
            let (left, top) = (i32::from(r.x), i32::from(r.y));
            left <= x && x < left + i32::from(r.width) && top <= y && y < top + i32::from(r.height)
        })
    };
    for (y, row) in rows.iter().enumerate() {
        let (x0, x1) = row.unwrap();
        assert!(lit(x0, y as i32) && lit(x1, y as i32));
        if y > 0 && y < 4 {
            let (above0, above1) = rows[y - 1].unwrap();
            assert!(lit(above0, y as i32) && lit(above1, y as i32));
        }
    }
    assert!(!lit(6, 2));
}
