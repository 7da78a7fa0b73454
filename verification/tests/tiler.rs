use perlinrs::{corners_of, noise_2d, square, Corners, Sample};

fn sample(x: u32, y: u32, row: usize, col: usize, scale: usize) -> Sample {
    Sample { cell_x: x, cell_y: y, corners: corners_of(x, y), col, cols: scale, row, rows: scale }
}

fn marker() -> Sample {
    Sample {
        cell_x: 9,
        cell_y: 9,
        corners: Corners { g00: 0, g01: 0, g10: 0, g11: 0 },
        col: 0,
        cols: 1,
        row: 0,
        rows: 1,
    }
}

#[test]
fn sample_new_fills_every_field() {
    let s: Sample = Sample::new(3, 5, 1, 2, 4, 6);
    assert_eq!(s.cell_x, 3);
    assert_eq!(s.cell_y, 5);
    assert_eq!(s.row, 1);
    assert_eq!(s.col, 2);
    assert_eq!(s.rows, 4);
    assert_eq!(s.cols, 6);
    assert_eq!(s.corners, corners_of(3, 5));
}

#[test]
fn noise_2d_single_pixel() {
    let buf: Vec<Sample> = noise_2d(1, 1, 1);
    assert_eq!(buf.len(), 1);
    // One sub-cell: the sample sits at the centre of cell (0, 0).
    assert_eq!(
        buf[0],
        Sample {
            cell_x: 0,
            cell_y: 0,
            corners: Corners { g00: 47, g01: 160, g10: 211, g11: 20 },
            col: 0,
            cols: 1,
            row: 0,
            rows: 1,
        }
    );
}

#[test]
fn noise_2d_four_by_four_in_blocks_of_two() {
    let buf: Vec<Sample> = noise_2d(4, 4, 2);
    assert_eq!(buf.len(), 16);
    for r in 0usize..4 {
        for c in 0usize..4 {
            let s: Sample = buf[r * 4 + c];
            assert_eq!(s.cell_x as usize, c / 2);
            assert_eq!(s.cell_y as usize, r / 2);
            assert_eq!(s.corners, corners_of(s.cell_x, s.cell_y));
            assert_eq!(s.col, c % 2);
            assert_eq!(s.row, r % 2);
            assert_eq!(s.cols, 2);
            assert_eq!(s.rows, 2);
        }
    }
    assert_eq!(buf[0].corners, Corners { g00: 47, g01: 160, g10: 211, g11: 20 });
    assert_eq!(buf[2].corners.g00, 211);
    assert_eq!(buf[8].corners.g00, 160);
    assert_eq!(buf[10], sample(1, 1, 0, 0, 2));
    assert_eq!(buf[15], sample(1, 1, 1, 1, 2));
}

#[test]
fn noise_2d_hundred_by_hundred() {
    let buf: Vec<Sample> = noise_2d(100, 100, 10);
    assert_eq!(buf.len(), 10_000);
    for r in 0usize..100 {
        for c in 0usize..100 {
            assert_eq!(buf[r * 100 + c], sample((c / 10) as u32, (r / 10) as u32, r % 10, c % 10, 10));
        }
    }
}

#[test]
fn noise_2d_width_not_a_multiple_of_scale() {
    // Three cell columns cover five pixel columns; the last cell shows only
    // its first column, and nothing of it lands on the next row.
    let buf: Vec<Sample> = noise_2d(5, 3, 2);
    assert_eq!(buf.len(), 15);
    for r in 0usize..3 {
        for c in 0usize..5 {
            assert_eq!(buf[r * 5 + c], sample((c / 2) as u32, (r / 2) as u32, r % 2, c % 2, 2));
        }
    }
    assert_eq!(buf[4], sample(2, 0, 0, 0, 2));
    assert_eq!(buf[5], sample(0, 0, 1, 0, 2));
    assert_eq!(buf[9], sample(2, 0, 1, 0, 2));
    assert_eq!(buf[10], sample(0, 1, 0, 0, 2));
    for s in buf.iter() {
        assert!(!(s.cell_x == 2 && s.col == 1));
        assert!(!(s.cell_y == 1 && s.row == 1));
    }
}

#[test]
fn noise_2d_scale_larger_than_image() {
    let buf: Vec<Sample> = noise_2d(3, 2, 7);
    assert_eq!(buf.len(), 6);
    for r in 0usize..2 {
        for c in 0usize..3 {
            assert_eq!(buf[r * 3 + c], sample(0, 0, r, c, 7));
        }
    }
}

#[test]
fn noise_2d_single_column() {
    let buf: Vec<Sample> = noise_2d(1, 5, 2);
    assert_eq!(buf.len(), 5);
    for r in 0usize..5 {
        assert_eq!(buf[r], sample(0, (r / 2) as u32, r % 2, 0, 2));
    }
}

#[test]
fn noise_2d_is_repeatable() {
    assert_eq!(noise_2d(17, 9, 4), noise_2d(17, 9, 4));
    assert_eq!(noise_2d(1, 1, 1), noise_2d(1, 1, 1));
    assert_ne!(noise_2d(17, 9, 4), noise_2d(17, 9, 5));
}

#[test]
fn square_writes_its_patch_and_nothing_else() {
    let mut buf: Vec<Sample> = vec![marker(); 24];
    // Rows of six; the patch starts at row 1, column 2.
    square(4, 7, 2, &mut buf, 8, 6);
    for k in 0usize..24 {
        let r: usize = k / 6;
        let c: usize = k % 6;
        if (1..3).contains(&r) && (2..4).contains(&c) {
            assert_eq!(buf[k], sample(4, 7, r - 1, c - 2, 2));
        } else {
            assert_eq!(buf[k], marker());
        }
    }
}

#[test]
fn square_stops_at_the_end_of_the_row() {
    let mut buf: Vec<Sample> = vec![marker(); 15];
    // Rows of five; a patch of three columns starting at column 3 shows two.
    square(1, 0, 3, &mut buf, 3, 5);
    assert_eq!(buf[3], sample(1, 0, 0, 0, 3));
    assert_eq!(buf[4], sample(1, 0, 0, 1, 3));
    assert_eq!(buf[5], marker());
    assert_eq!(buf[8], sample(1, 0, 1, 0, 3));
    assert_eq!(buf[9], sample(1, 0, 1, 1, 3));
    assert_eq!(buf[10], marker());
    assert_eq!(buf[13], sample(1, 0, 2, 0, 3));
    assert_eq!(buf[14], sample(1, 0, 2, 1, 3));
    let written: usize = buf.iter().filter(|s| **s != marker()).count();
    assert_eq!(written, 6);
    assert!(buf.iter().all(|s| s.col != 2));
}

#[test]
fn square_drops_what_lies_past_the_buffer() {
    let mut buf: Vec<Sample> = vec![marker(); 10];
    // Rows of five, two of them; the third row of the patch has no place.
    square(0, 0, 3, &mut buf, 1, 5);
    assert_eq!(buf.len(), 10);
    assert_eq!(buf[0], marker());
    assert_eq!(buf[1], sample(0, 0, 0, 0, 3));
    assert_eq!(buf[3], sample(0, 0, 0, 2, 3));
    assert_eq!(buf[4], marker());
    assert_eq!(buf[6], sample(0, 0, 1, 0, 3));
    assert_eq!(buf[8], sample(0, 0, 1, 2, 3));
    assert_eq!(buf[9], marker());
    assert!(buf.iter().all(|s| *s == marker() || s.row < 2));
}

#[test]
fn square_starting_past_the_buffer_writes_nothing() {
    let mut buf: Vec<Sample> = vec![marker(); 6];
    square(0, 0, 2, &mut buf, 6, 3);
    assert_eq!(buf, vec![marker(); 6]);
    square(0, 0, 2, &mut buf, usize::MAX, 3);
    assert_eq!(buf, vec![marker(); 6]);
    let mut none: Vec<Sample> = Vec::new();
    square(0, 0, 2, &mut none, 0, 3);
    assert!(none.is_empty());
}

#[test]
fn square_with_rows_of_one_writes_first_column_only() {
    let mut buf: Vec<Sample> = vec![marker(); 4];
    square(2, 2, 3, &mut buf, 1, 1);
    assert_eq!(buf[0], marker());
    assert_eq!(buf[1], sample(2, 2, 0, 0, 3));
    assert_eq!(buf[2], sample(2, 2, 1, 0, 3));
    assert_eq!(buf[3], sample(2, 2, 2, 0, 3));
}

#[test]
fn square_wider_than_the_row() {
    let mut buf: Vec<Sample> = vec![marker(); 9];
    // Rows of three and a patch of five by five from the first place: each
    // patch row fills one buffer row and stops there.
    square(0, 0, 5, &mut buf, 0, 3);
    for k in 0usize..9 {
        assert_eq!(buf[k], sample(0, 0, k / 3, k % 3, 5));
    }
}

#[test]
fn square_with_huge_scale_ends() {
    let mut buf: Vec<Sample> = vec![marker(); 6];
    square(0, 0, usize::MAX, &mut buf, 1, 2);
    assert_eq!(buf[0], marker());
    assert_eq!(buf[1], sample(0, 0, 0, 0, usize::MAX));
    assert_eq!(buf[2], marker());
    assert_eq!(buf[3], sample(0, 0, 1, 0, usize::MAX));
    assert_eq!(buf[5], sample(0, 0, 2, 0, usize::MAX));
}
