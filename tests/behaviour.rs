use drunken_bishop::{drunken_bishop, in_range, openssl, try_drunken_bishop, walk, BishopError, Mode};

#[test]
fn empty_fingerprint_marks_only_the_center() {
    let expected = "+-----------------+\n\
                    |                 |\n\
                    |                 |\n\
                    |                 |\n\
                    |                 |\n\
                    |        E        |\n\
                    |                 |\n\
                    |                 |\n\
                    |                 |\n\
                    |                 |\n\
                    +-----------------+\n";
    assert_eq!(drunken_bishop(&[], openssl()), expected);
}

#[test]
fn zero_bytes_stick_to_the_top_left_corner() {
    let w = walk(&[0u8; 16], 9, 17);
    assert_eq!((w.row, w.col), (0, 0));
    assert_eq!(w.counts.len(), 9 * 17);
    assert_eq!(w.counts[0], 57);
    assert_eq!(w.counts[4], 1);
    assert_eq!(w.counts[3 * 17 + 7], 1);
    assert_eq!(w.counts[4 * 17 + 8], 0);
}

#[test]
fn corner_count_shows_after_clamping() {
    let expected = "+-----------------+\n\
                    |*....            |\n\
                    | .   .           |\n\
                    |  .   .          |\n\
                    |   .   .         |\n\
                    |    E   S        |\n\
                    |                 |\n\
                    |                 |\n\
                    |                 |\n\
                    |                 |\n\
                    +-----------------+\n";
    assert_eq!(drunken_bishop(&[0x00, 0x00, 0x00, 0xff], openssl()), expected);
}

#[test]
fn counts_saturate_below_the_markers() {
    let expected = "+-----------------+\n\
                    |^....            |\n\
                    | .   .           |\n\
                    |  .   .          |\n\
                    |   .   .         |\n\
                    |    E   S        |\n\
                    |                 |\n\
                    |                 |\n\
                    |                 |\n\
                    |                 |\n\
                    +-----------------+\n";
    let input = [0x00, 0x00, 0x00, 0x00, 0x00, 0x00, 0xff];
    assert_eq!(walk(&input, 9, 17).counts[0], 17);
    assert_eq!(drunken_bishop(&input, openssl()), expected);
}

#[test]
fn bit_pairs_are_read_lowest_first() {
    // 0x1b holds the codes 3, 2, 1, 0 from its lowest pair up.
    let w = walk(&[0x1b], 5, 5);
    assert_eq!((w.row, w.col), (2, 2));
    assert_eq!(w.counts[3 * 5 + 3], 2);
    assert_eq!(w.counts[4 * 5 + 2], 1);
    assert_eq!(w.counts[2 * 5 + 2], 1);
    assert_eq!(w.counts.iter().sum::<usize>(), 4);
}

#[test]
fn single_cell_grid_shows_the_end_marker() {
    let mode = Mode { height: 1, width: 1, alphabet: b" .o+=*BOX@%&#/^SE" };
    assert_eq!(drunken_bishop(&[0x1b], mode), "+-+\n|E|\n+-+\n");
}

#[test]
fn three_glyph_alphabet() {
    let mode = Mode { height: 3, width: 5, alphabet: b"abc" };
    assert_eq!(drunken_bishop(&[0x1b, 0xe4], mode), "+-----+\n|aaaaa|\n|aabaa|\n|aacaa|\n+-----+\n");
}

#[test]
fn shape_of_the_standard_picture() {
    let out = drunken_bishop(&[0x16, 0x27, 0xac, 0xa5], openssl());
    let lines: Vec<&str> = out.split_terminator('\n').collect();
    assert_eq!(lines.len(), 11);
    assert!(lines.iter().all(|l| l.len() == 19));
    assert!(out.ends_with('\n'));
    assert_eq!(out.matches('S').count(), 1);
    assert_eq!(out.matches('E').count(), 1);
}

#[test]
fn same_input_same_picture() {
    let input = [0xb6, 0xdd, 0xb7, 0x1f];
    assert_eq!(drunken_bishop(&input, openssl()), drunken_bishop(&input, openssl()));
}

#[test]
fn rejects_empty_grid_and_short_alphabet() {
    let no_rows = Mode { height: 0, width: 17, alphabet: b" .o+=*BOX@%&#/^SE" };
    assert_eq!(try_drunken_bishop(&[1, 2], no_rows), Err(BishopError::InvalidConfiguration));
    let no_cols = Mode { height: 9, width: 0, alphabet: b" .o+=*BOX@%&#/^SE" };
    assert_eq!(try_drunken_bishop(&[1, 2], no_cols), Err(BishopError::InvalidConfiguration));
    let short = Mode { height: 9, width: 17, alphabet: b"SE" };
    assert_eq!(try_drunken_bishop(&[1, 2], short), Err(BishopError::InvalidConfiguration));
}

#[test]
fn accepts_a_valid_configuration() {
    let input = [0x05, 0x1e];
    assert_eq!(try_drunken_bishop(&input, openssl()), Ok(drunken_bishop(&input, openssl())));
}

#[test]
fn in_range_clamps() {
    assert_eq!(in_range(0, -1, 8), 0);
    assert_eq!(in_range(0, 9, 8), 8);
    assert_eq!(in_range(0, 5, 8), 5);
    assert_eq!(in_range(-3, -3, -3), -3);
}

#[test]
fn openssl_preset() {
    let m = openssl();
    assert_eq!((m.height, m.width), (9, 17));
    assert_eq!(m.alphabet, b" .o+=*BOX@%&#/^SE");
}

#[test]
fn walk_back_to_center_shows_end_marker() {
    // 0x33 steps down-right, up-left, down-right, up-left.
    let w = walk(&[0x33], 9, 17);
    assert_eq!((w.row, w.col), (4, 8));
    assert_eq!(w.counts[4 * 17 + 8], 2);
    let out = drunken_bishop(&[0x33], openssl());
    assert_eq!(out.lines().nth(5), Some("|        E        |"));
    assert_eq!(out.lines().nth(6), Some("|         o       |"));
    assert_eq!(out.matches('S').count(), 0);
}
