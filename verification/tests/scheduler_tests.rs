use mandelbrot_explorer::apply_results;
use mandelbrot_explorer::collect_recompute_coords;
use mandelbrot_explorer::complete_render_pass;
use mandelbrot_explorer::make_chunks;
use mandelbrot_explorer::render_frame;
use mandelbrot_explorer::Buffer;
use mandelbrot_explorer::Classification;
use mandelbrot_explorer::CoreError;
use mandelbrot_explorer::Pixel;

#[test]
fn collect_lists_recompute_cells_in_column_major_order() {
    let mut b: Buffer<Pixel> = Buffer::new((3, 3), Pixel::Value(Classification::Outside));
    b.put(Pixel::Recompute, 2, 0).unwrap();
    b.put(Pixel::Recompute, 0, 1).unwrap();
    b.put(Pixel::Recompute, 0, 0).unwrap();
    let coords = collect_recompute_coords(&b);
    assert_eq!(coords, vec![(0, 0), (0, 1), (2, 0)]);
}

#[test]
fn collect_on_fully_computed_buffer_is_empty() {
    let b: Buffer<Pixel> = Buffer::new((4, 4), Pixel::Value(Classification::Inside));
    assert_eq!(collect_recompute_coords(&b), vec![]);
}

#[test]
fn make_chunks_splits_evenly_with_remainder_in_last() {
    let items: Vec<(u16, u16)> = (0..10u16).map(|i| (i, 0)).collect();
    let chunks = make_chunks(&items, 3);
    assert_eq!(chunks.len(), 3);
    assert_eq!(chunks[0], vec![(0, 0), (1, 0), (2, 0)]);
    assert_eq!(chunks[1], vec![(3, 0), (4, 0), (5, 0)]);
    assert_eq!(chunks[2], vec![(6, 0), (7, 0), (8, 0), (9, 0)]);
}

#[test]
fn make_chunks_with_fewer_items_than_chunks() {
    let items: Vec<(u16, u16)> = vec![(1, 1), (2, 2)];
    let chunks = make_chunks(&items, 4);
    assert_eq!(chunks.len(), 4);
    assert_eq!(chunks[0], vec![]);
    assert_eq!(chunks[1], vec![]);
    assert_eq!(chunks[2], vec![]);
    assert_eq!(chunks[3], vec![(1, 1), (2, 2)]);
}

#[test]
fn make_chunks_concatenation_is_the_original_list() {
    let items: Vec<(u16, u16)> = (0..17u16).map(|i| (i, i)).collect();
    let chunks = make_chunks(&items, 5);
    let rejoined: Vec<(u16, u16)> = chunks.into_iter().flatten().collect();
    assert_eq!(rejoined, items);
}

#[test]
fn apply_results_writes_classifications() {
    let mut b: Buffer<Pixel> = Buffer::new((3, 3), Pixel::Recompute);
    let results = vec![
        (0u16, 0u16, Classification::Inside),
        (2u16, 1u16, Classification::Outside),
    ];
    assert_eq!(apply_results(&mut b, &results), Ok(()));
    assert_eq!(b.get(0, 0), Ok(Pixel::Value(Classification::Inside)));
    assert_eq!(b.get(2, 1), Ok(Pixel::Value(Classification::Outside)));
    assert_eq!(b.get(1, 1), Ok(Pixel::Recompute));
}

#[test]
fn apply_results_last_write_wins() {
    let mut b: Buffer<Pixel> = Buffer::new((2, 2), Pixel::Recompute);
    let results = vec![
        (1u16, 1u16, Classification::Inside),
        (1u16, 1u16, Classification::Outside),
    ];
    assert_eq!(apply_results(&mut b, &results), Ok(()));
    assert_eq!(b.get(1, 1), Ok(Pixel::Value(Classification::Outside)));
}

#[test]
fn apply_results_out_of_bounds_stops_at_first_offender() {
    let mut b: Buffer<Pixel> = Buffer::new((2, 2), Pixel::Recompute);
    let results = vec![
        (0u16, 0u16, Classification::Inside),
        (5u16, 5u16, Classification::Outside),
        (1u16, 1u16, Classification::Outside),
    ];
    assert_eq!(apply_results(&mut b, &results), Err(CoreError::OutOfBounds));
    // the result before the offender was applied, the one after was not
    assert_eq!(b.get(0, 0), Ok(Pixel::Value(Classification::Inside)));
    assert_eq!(b.get(1, 1), Ok(Pixel::Recompute));
}

#[test]
fn short_result_set_is_a_worker_failure() {
    let mut b: Buffer<Pixel> = Buffer::new((2, 2), Pixel::Recompute);
    let results = vec![(0u16, 0u16, Classification::Inside)];
    // four cells were dispatched, only one result came back
    assert_eq!(
        complete_render_pass(&mut b, 4, &results),
        Err(CoreError::WorkerFailure)
    );
    // nothing was applied
    for x in 0..2u16 {
        for y in 0..2u16 {
            assert_eq!(b.get(x, y), Ok(Pixel::Recompute));
        }
    }
}

#[test]
fn complete_result_set_is_applied() {
    let mut b: Buffer<Pixel> = Buffer::new((2, 1), Pixel::Recompute);
    let results = vec![
        (0u16, 0u16, Classification::Inside),
        (1u16, 0u16, Classification::Outside),
    ];
    assert_eq!(complete_render_pass(&mut b, 2, &results), Ok(()));
    assert_eq!(b.get(0, 0), Ok(Pixel::Value(Classification::Inside)));
    assert_eq!(b.get(1, 0), Ok(Pixel::Value(Classification::Outside)));
}

#[test]
fn render_frame_fails_on_incomplete_buffer() {
    let mut b: Buffer<Pixel> = Buffer::new((2, 2), Pixel::Value(Classification::Outside));
    b.put(Pixel::Recompute, 1, 0).unwrap();
    assert_eq!(render_frame(&b), Err(CoreError::IncompleteFrame));
}

#[test]
fn render_frame_lists_every_cell_in_order() {
    let mut b: Buffer<Pixel> = Buffer::new((2, 2), Pixel::Value(Classification::Outside));
    b.put(Pixel::Value(Classification::Inside), 0, 1).unwrap();
    let frame = render_frame(&b).unwrap();
    assert_eq!(
        frame,
        vec![
            (0, 0, Classification::Outside),
            (0, 1, Classification::Inside),
            (1, 0, Classification::Outside),
            (1, 1, Classification::Outside),
        ]
    );
}

/// The complex point at screen cell `(x, y)`, as the viewport maps it:
/// centered, uniform scale in x, doubled in y to compensate for the
/// character aspect ratio, imaginary axis pointing up.
fn screen_to_plane(x: u16, y: u16, w: u16, h: u16, scale: f64) -> (f64, f64) {
    let re = (x as f64 - w as f64 / 2.0) * scale;
    let im = -(y as f64 - h as f64 / 2.0) * scale * 2.0;
    (re, im)
}

#[test]
fn full_render_pass_classifies_every_cell() {
    // a 10x10 buffer initialized to Recompute, an evaluator that
    // classifies exactly the plane point (0, 0) as Inside, work split
    // across 4 chunks: after one pass every cell reports Outside except
    // the screen center (5, 5), which maps to (0, 0) and reports Inside
    let w = 10u16;
    let h = 10u16;
    let mut b: Buffer<Pixel> = Buffer::new((w, h), Pixel::Recompute);
    let coords = collect_recompute_coords(&b);
    assert_eq!(coords.len(), 100);
    let chunks = make_chunks(&coords, 4);
    assert_eq!(chunks.len(), 4);
    assert!(chunks.iter().all(|c| c.len() == 25));
    let mut results: Vec<(u16, u16, Classification)> = Vec::new();
    for chunk in &chunks {
        for &(x, y) in chunk {
            let (re, im) = screen_to_plane(x, y, w, h, 0.02);
            let cls = if re == 0.0 && im == 0.0 {
                Classification::Inside
            } else {
                Classification::Outside
            };
            results.push((x, y, cls));
        }
    }
    assert_eq!(apply_results(&mut b, &results), Ok(()));
    for x in 0..w {
        for y in 0..h {
            let expected = if (x, y) == (5, 5) {
                Pixel::Value(Classification::Inside)
            } else {
                Pixel::Value(Classification::Outside)
            };
            assert_eq!(b.get(x, y), Ok(expected));
        }
    }
    // the frame is now complete and presentable
    assert_eq!(render_frame(&b).unwrap().len(), 100);
}
