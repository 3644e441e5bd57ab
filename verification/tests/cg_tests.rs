use tinyrenderer::cg::bresenham;

fn sorted(mut v: Vec<(i32, i32)>) -> Vec<(i32, i32)> {
    v.sort();
    v
}

#[test]
fn horizontal_segment_emits_each_column_once() {
    // Scenario: (0,0) -> (3,0).
    let pixels = bresenham((0, 0), (3, 0));
    assert_eq!(pixels, vec![(0, 0), (1, 0), (2, 0), (3, 0)]);
}

#[test]
fn diagonal_segment_emits_each_diagonal_step() {
    // Scenario: (0,0) -> (3,3).
    let pixels = bresenham((0, 0), (3, 3));
    assert_eq!(pixels, vec![(0, 0), (1, 1), (2, 2), (3, 3)]);
}

#[test]
fn degenerate_segment_emits_exactly_one_pixel() {
    let pixels = bresenham((5, -7), (5, -7));
    assert_eq!(pixels, vec![(5, -7)]);
}

#[test]
fn pixel_count_is_major_extent_plus_one() {
    let cases: [((i32, i32), (i32, i32)); 6] = [
        ((0, 0), (10, 3)),
        ((0, 0), (3, 10)),
        ((-4, 2), (5, -9)),
        ((7, 7), (-7, 1)),
        ((2, 2), (2, 9)),
        ((1, 1), (1, 1)),
    ];
    for ((x0, y0), (x1, y1)) in cases.iter().copied() {
        let pixels = bresenham((x0, y0), (x1, y1));
        let dx = (x1 - x0).abs();
        let dy = (y1 - y0).abs();
        let expected = dx.max(dy) as usize + 1;
        assert_eq!(pixels.len(), expected);
        // Both endpoints appear exactly once.
        let starts = pixels.iter().filter(|p| **p == (x0, y0)).count();
        let ends = pixels.iter().filter(|p| **p == (x1, y1)).count();
        if (x0, y0) == (x1, y1) {
            assert_eq!(starts, 1);
        } else {
            assert_eq!(starts, 1);
            assert_eq!(ends, 1);
        }
        // No pixel is emitted twice.
        let mut s = sorted(pixels.clone());
        s.dedup();
        assert_eq!(s.len(), pixels.len());
    }
}

#[test]
fn reversed_endpoints_emit_the_same_pixel_set() {
    let cases: [((i32, i32), (i32, i32)); 5] = [
        ((0, 0), (10, 3)),
        ((0, 0), (3, 10)),
        ((-4, 2), (5, -9)),
        ((7, 7), (-7, 1)),
        ((3, -1), (3, 8)),
    ];
    for ((x0, y0), (x1, y1)) in cases.iter().copied() {
        let fwd = sorted(bresenham((x0, y0), (x1, y1)));
        let rev = sorted(bresenham((x1, y1), (x0, y0)));
        assert_eq!(fwd, rev);
    }
}

#[test]
fn steep_segment_transposes_and_transposes_back() {
    // The steep segment (0,0) -> (1,3) walks the vertical axis.
    let pixels = bresenham((0, 0), (1, 3));
    assert_eq!(pixels.len(), 4);
    assert_eq!(pixels[0], (0, 0));
    assert_eq!(pixels[3], (1, 3));
    for w in pixels.windows(2) {
        assert_eq!(w[1].1 - w[0].1, 1);
    }
}

#[test]
fn gentle_slope_advances_minor_axis_late() {
    // (0,0) -> (4,2): minor axis advances when the accumulated error
    // crosses half a major step.
    let pixels = bresenham((0, 0), (4, 2));
    assert_eq!(pixels, vec![(0, 0), (1, 0), (2, 1), (3, 1), (4, 2)]);
}
