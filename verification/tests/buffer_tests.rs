use mandelbrot_explorer::Buffer;
use mandelbrot_explorer::CoreError;
use mandelbrot_explorer::Direction;

#[test]
fn new_buffer_is_filled_with_starting_item() {
    let b: Buffer<u8> = Buffer::new((3, 2), 7);
    for x in 0..3u16 {
        for y in 0..2u16 {
            assert_eq!(b.get(x, y), Ok(7));
        }
    }
}

#[test]
fn get_out_of_bounds_fails() {
    let b: Buffer<u8> = Buffer::new((3, 2), 0);
    assert_eq!(b.get(3, 0), Err(CoreError::OutOfBounds));
    assert_eq!(b.get(0, 2), Err(CoreError::OutOfBounds));
    assert_eq!(b.get(100, 100), Err(CoreError::OutOfBounds));
}

#[test]
fn put_then_get_returns_value() {
    let mut b: Buffer<u8> = Buffer::new((4, 4), 0);
    assert_eq!(b.put(9, 1, 2), Ok(()));
    assert_eq!(b.get(1, 2), Ok(9));
    // every other cell is untouched
    for x in 0..4u16 {
        for y in 0..4u16 {
            if (x, y) != (1, 2) {
                assert_eq!(b.get(x, y), Ok(0));
            }
        }
    }
}

#[test]
fn put_overwrites_previous_value() {
    let mut b: Buffer<u8> = Buffer::new((2, 2), 0);
    b.put(5, 0, 0).unwrap();
    b.put(6, 0, 0).unwrap();
    assert_eq!(b.get(0, 0), Ok(6));
}

#[test]
fn put_out_of_bounds_fails() {
    let mut b: Buffer<u8> = Buffer::new((3, 2), 0);
    assert_eq!(b.put(1, 3, 0), Err(CoreError::OutOfBounds));
    assert_eq!(b.put(1, 0, 2), Err(CoreError::OutOfBounds));
}

fn numbered(w: u16, h: u16) -> Buffer<u16> {
    let mut b: Buffer<u16> = Buffer::new((w, h), 0xFFFF);
    for x in 0..w {
        for y in 0..h {
            b.put(x * 100 + y, x, y).unwrap();
        }
    }
    b
}

#[test]
fn shift_down_moves_content_down_and_reveals_top() {
    let mut b = numbered(3, 3);
    b.shift(Direction::Down, 1, 0xFFFF);
    for x in 0..3u16 {
        assert_eq!(b.get(x, 0), Ok(0xFFFF));
        for y in 1..3u16 {
            assert_eq!(b.get(x, y), Ok(x * 100 + (y - 1)));
        }
    }
}

#[test]
fn shift_up_moves_content_up_and_reveals_bottom() {
    let mut b = numbered(3, 3);
    b.shift(Direction::Up, 1, 0xFFFF);
    for x in 0..3u16 {
        assert_eq!(b.get(x, 2), Ok(0xFFFF));
        for y in 0..2u16 {
            assert_eq!(b.get(x, y), Ok(x * 100 + (y + 1)));
        }
    }
}

#[test]
fn shift_right_moves_content_right_and_reveals_left() {
    let mut b = numbered(3, 3);
    b.shift(Direction::Right, 1, 0xFFFF);
    for y in 0..3u16 {
        assert_eq!(b.get(0, y), Ok(0xFFFF));
        for x in 1..3u16 {
            assert_eq!(b.get(x, y), Ok((x - 1) * 100 + y));
        }
    }
}

#[test]
fn shift_left_moves_content_left_and_reveals_right() {
    let mut b = numbered(3, 3);
    b.shift(Direction::Left, 1, 0xFFFF);
    for y in 0..3u16 {
        assert_eq!(b.get(2, y), Ok(0xFFFF));
        for x in 0..2u16 {
            assert_eq!(b.get(x, y), Ok((x + 1) * 100 + y));
        }
    }
}

#[test]
fn shift_by_two_moves_by_two() {
    let mut b = numbered(4, 4);
    b.shift(Direction::Left, 2, 0xFFFF);
    for y in 0..4u16 {
        assert_eq!(b.get(2, y), Ok(0xFFFF));
        assert_eq!(b.get(3, y), Ok(0xFFFF));
        for x in 0..2u16 {
            assert_eq!(b.get(x, y), Ok((x + 2) * 100 + y));
        }
    }
}

#[test]
fn put_survives_shift_at_tracked_coordinate() {
    let mut b: Buffer<u8> = Buffer::new((5, 5), 0);
    b.put(42, 2, 2).unwrap();
    b.shift(Direction::Right, 1, 9);
    assert_eq!(b.get(3, 2), Ok(42));
    b.shift(Direction::Down, 2, 9);
    assert_eq!(b.get(3, 4), Ok(42));
}

#[test]
fn shift_drops_content_off_the_edge() {
    let mut b: Buffer<u8> = Buffer::new((3, 3), 0);
    b.put(42, 2, 0).unwrap();
    // moving right pushes column 2 off the right edge
    b.shift(Direction::Right, 1, 9);
    for x in 0..3u16 {
        for y in 0..3u16 {
            let expected = if x == 0 { 9 } else { 0 };
            assert_eq!(b.get(x, y), Ok(expected));
        }
    }
}

#[test]
fn full_cycle_shift_restores_mapping_and_fills_everything() {
    // Shifting by the whole width wraps the origin all the way around:
    // the logical-to-physical mapping is as before, and every revealed
    // column holds the placeholder.
    let mut b = numbered(3, 3);
    b.shift(Direction::Right, 3, 0xFFFF);
    for x in 0..3u16 {
        for y in 0..3u16 {
            assert_eq!(b.get(x, y), Ok(0xFFFF));
        }
    }
    // after the full cycle the buffer behaves exactly like a fresh one
    b.put(7, 1, 1).unwrap();
    assert_eq!(b.get(1, 1), Ok(7));
}

#[test]
fn shift_beyond_dimension_is_clamped() {
    let mut a = numbered(3, 3);
    let mut b = numbered(3, 3);
    a.shift(Direction::Up, 3, 0xFFFF);
    b.shift(Direction::Up, 250, 0xFFFF);
    for x in 0..3u16 {
        for y in 0..3u16 {
            assert_eq!(a.get(x, y), b.get(x, y));
        }
    }
}

#[test]
fn pan_right_then_left_restores_unrevealed_cells() {
    let w = 5u16;
    let h = 4u16;
    let k = 2u16;
    let original = numbered(w, h);
    let mut b = numbered(w, h);
    b.shift(Direction::Right, k, 0xFFFF);
    b.shift(Direction::Left, k, 0xFFFF);
    for x in 0..w {
        for y in 0..h {
            if x + k < w {
                assert_eq!(b.get(x, y), original.get(x, y));
            } else {
                assert_eq!(b.get(x, y), Ok(0xFFFF));
            }
        }
    }
}

#[test]
fn clear_resets_every_cell() {
    let mut b = numbered(4, 3);
    b.shift(Direction::Down, 1, 0xFFFF);
    b.clear(3);
    for x in 0..4u16 {
        for y in 0..3u16 {
            assert_eq!(b.get(x, y), Ok(3));
        }
    }
}
