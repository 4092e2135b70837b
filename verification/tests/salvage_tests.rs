use mandelbrot_explorer::in_range;
use mandelbrot_explorer::salvage;
use mandelbrot_explorer::salvage_cell;
use mandelbrot_explorer::Buffer;
use mandelbrot_explorer::Classification;
use mandelbrot_explorer::Pixel;

fn identity_mapping(w: u16, h: u16) -> Vec<(i64, i64)> {
    let mut mapped = Vec::new();
    for x in 0..w {
        for y in 0..h {
            mapped.push((x as i64, y as i64));
        }
    }
    mapped
}

#[test]
fn in_range_is_half_open() {
    assert!(in_range(0, 0, 3));
    assert!(in_range(2, 0, 3));
    assert!(!in_range(3, 0, 3));
    assert!(!in_range(-1, 0, 3));
}

#[test]
fn out_of_range_source_is_recomputed() {
    let old_frame: Buffer<Pixel> = Buffer::new((4, 4), Pixel::Value(Classification::Inside));
    assert_eq!(salvage_cell(&old_frame, -1, 0), Pixel::Recompute);
    assert_eq!(salvage_cell(&old_frame, 0, 4), Pixel::Recompute);
    assert_eq!(salvage_cell(&old_frame, 100, 100), Pixel::Recompute);
}

#[test]
fn unanimous_neighborhood_is_reused() {
    let inside: Buffer<Pixel> = Buffer::new((5, 5), Pixel::Value(Classification::Inside));
    assert_eq!(salvage_cell(&inside, 2, 2), Pixel::Value(Classification::Inside));
    let outside: Buffer<Pixel> = Buffer::new((5, 5), Pixel::Value(Classification::Outside));
    assert_eq!(salvage_cell(&outside, 2, 2), Pixel::Value(Classification::Outside));
}

#[test]
fn recompute_neighbor_forces_recompute() {
    let mut old_frame: Buffer<Pixel> = Buffer::new((5, 5), Pixel::Value(Classification::Inside));
    old_frame.put(Pixel::Recompute, 2, 2).unwrap();
    // every cell whose neighborhood touches (2, 2) must be recomputed
    for ox in 1..=3i64 {
        for oy in 1..=3i64 {
            if (ox, oy) != (2, 2) {
                assert_eq!(salvage_cell(&old_frame, ox, oy), Pixel::Recompute);
            }
        }
    }
    // (2, 2) itself is not its own neighbor; its neighbors are all Inside
    assert_eq!(salvage_cell(&old_frame, 2, 2), Pixel::Value(Classification::Inside));
    // far away the stale cell is invisible
    assert_eq!(salvage_cell(&old_frame, 4, 4), Pixel::Value(Classification::Inside));
}

#[test]
fn mixed_neighborhood_is_recomputed() {
    // left half Inside, right half Outside: a sharp vertical boundary
    let w = 6u16;
    let h = 6u16;
    let mut old_frame: Buffer<Pixel> = Buffer::new((w, h), Pixel::Value(Classification::Inside));
    for x in 3..w {
        for y in 0..h {
            old_frame.put(Pixel::Value(Classification::Outside), x, y).unwrap();
        }
    }
    for ox in 0..w as i64 {
        for oy in 0..h as i64 {
            let expected = if ox <= 1 {
                Pixel::Value(Classification::Inside)
            } else if ox <= 3 {
                // the neighborhood straddles the boundary
                Pixel::Recompute
            } else {
                Pixel::Value(Classification::Outside)
            };
            assert_eq!(salvage_cell(&old_frame, ox, oy), expected);
        }
    }
}

#[test]
fn salvage_rebuilds_frame_with_boundary_recomputed() {
    // the scenario of a committed zoom with no scale change: every
    // boundary-adjacent cell is re-marked for recomputation, the rest is
    // salvaged as-is
    let w = 6u16;
    let h = 4u16;
    let mut old_frame: Buffer<Pixel> = Buffer::new((w, h), Pixel::Value(Classification::Inside));
    for x in 3..w {
        for y in 0..h {
            old_frame.put(Pixel::Value(Classification::Outside), x, y).unwrap();
        }
    }
    let mapped = identity_mapping(w, h);
    let fresh = salvage(&old_frame, &mapped);
    for x in 0..w {
        for y in 0..h {
            let expected = if x <= 1 {
                Pixel::Value(Classification::Inside)
            } else if x <= 3 {
                Pixel::Recompute
            } else {
                Pixel::Value(Classification::Outside)
            };
            assert_eq!(fresh.get(x, y), Ok(expected));
        }
    }
}

#[test]
fn salvage_with_shrinking_mapping_recomputes_missing_sources() {
    // zooming out: the outer ring maps to sources beyond the old frame
    let w = 4u16;
    let h = 4u16;
    let old_frame: Buffer<Pixel> = Buffer::new((w, h), Pixel::Value(Classification::Outside));
    let mut mapped = Vec::new();
    for x in 0..w as i64 {
        for y in 0..h as i64 {
            // sources are spread twice as far apart around the center
            mapped.push((2 + (x - 2) * 2, 2 + (y - 2) * 2));
        }
    }
    let fresh = salvage(&old_frame, &mapped);
    for x in 0..w {
        for y in 0..h {
            let sx = 2 + (x as i64 - 2) * 2;
            let sy = 2 + (y as i64 - 2) * 2;
            let expected = if (0..w as i64).contains(&sx) && (0..h as i64).contains(&sy) {
                Pixel::Value(Classification::Outside)
            } else {
                Pixel::Recompute
            };
            assert_eq!(fresh.get(x, y), Ok(expected));
        }
    }
}
