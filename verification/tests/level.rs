use float_me_pls::level::{level_blocks, parse_level, Block, LevelError, LevelGrid};

fn grid(text: &str) -> LevelGrid {
    match parse_level(text.as_bytes()) {
        Ok(grid) => grid,
        Err(e) => panic!("no level: {:?}", e),
    }
}

fn column(x: usize, row: usize, top: u8) -> Vec<Block> {
    let mut out = Vec::new();
    for y in 0..=top {
        out.push(Block { x, y, row });
    }
    out
}

fn count_at(blocks: &[Block], x: usize, row: usize) -> usize {
    blocks.iter().filter(|b| b.x == x && b.row == row).count()
}

#[test]
fn two_rows_lay_out_their_columns() {
    let blocks = level_blocks(b"2\n05").unwrap();
    let mut expected = column(0, 0, 2);
    expected.extend(column(1, 1, 5));
    assert_eq!(blocks, expected);
    assert_eq!(blocks.len(), 9);
    assert!(blocks.contains(&Block { x: 0, y: 0, row: 0 }));
    assert!(blocks.contains(&Block { x: 0, y: 1, row: 0 }));
    assert!(blocks.contains(&Block { x: 1, y: 0, row: 1 }));
    assert!(blocks.contains(&Block { x: 1, y: 1, row: 1 }));
    assert!(blocks.contains(&Block { x: 1, y: 4, row: 1 }));
    assert_eq!(count_at(&blocks, 0, 1), 0);
}

#[test]
fn zero_gives_no_block_and_other_digits_one_more_than_their_value() {
    let blocks = level_blocks(b"0123456789").unwrap();
    assert_eq!(count_at(&blocks, 0, 0), 0);
    for d in 1..10usize {
        assert_eq!(count_at(&blocks, d, 0), d + 1);
    }
    assert_eq!(blocks.len(), 2 + 3 + 4 + 5 + 6 + 7 + 8 + 9 + 10);
}

#[test]
fn blocks_come_row_by_row_then_column_by_column_lowest_first() {
    let blocks = level_blocks(b"11\n1").unwrap();
    assert_eq!(
        blocks,
        vec![
            Block { x: 0, y: 0, row: 0 },
            Block { x: 0, y: 1, row: 0 },
            Block { x: 1, y: 0, row: 0 },
            Block { x: 1, y: 1, row: 0 },
            Block { x: 0, y: 0, row: 1 },
            Block { x: 0, y: 1, row: 1 },
        ]
    );
}

#[test]
fn digits_become_heights() {
    let g = grid("2\n05");
    assert_eq!(g.row_count(), 2);
    assert_eq!(g.height_at(0, 0), Some(2));
    assert_eq!(g.height_at(1, 0), Some(0));
    assert_eq!(g.height_at(1, 1), Some(5));
    assert_eq!(g.height_at(0, 1), None);
    assert_eq!(g.height_at(2, 0), None);
    assert_eq!(g.blocks(), level_blocks(b"2\n05").unwrap());
}

#[test]
fn empty_text_is_an_empty_level() {
    let g = grid("");
    assert_eq!(g.row_count(), 0);
    assert_eq!(g.height_at(0, 0), None);
    assert!(g.blocks().is_empty());
}

#[test]
fn final_line_feed_adds_no_row() {
    assert_eq!(grid("12\n34\n").row_count(), 2);
    assert_eq!(grid("12\n34").row_count(), 2);
    assert_eq!(level_blocks(b"12\n34\n"), level_blocks(b"12\n34"));
}

#[test]
fn empty_lines_are_empty_rows() {
    let g = grid("\n\n7");
    assert_eq!(g.row_count(), 3);
    assert_eq!(g.height_at(0, 0), None);
    assert_eq!(g.height_at(2, 0), Some(7));
    assert_eq!(g.blocks(), column(0, 2, 7));
}

#[test]
fn carriage_return_before_line_feed_ends_the_line() {
    let g = grid("12\r\n34\r\n");
    assert_eq!(g.row_count(), 2);
    assert_eq!(g.height_at(0, 1), Some(2));
    assert_eq!(g.height_at(0, 2), None);
    assert_eq!(g.height_at(1, 1), Some(4));
}

#[test]
fn carriage_return_elsewhere_is_no_digit() {
    assert_eq!(
        parse_level(b"12\r").unwrap_err(),
        LevelError::NotADigit { row: 0, column: 2, byte: 13 }
    );
    assert_eq!(
        parse_level(b"1\r2\n").unwrap_err(),
        LevelError::NotADigit { row: 0, column: 1, byte: 13 }
    );
    assert_eq!(
        parse_level(b"1\r\r\n").unwrap_err(),
        LevelError::NotADigit { row: 0, column: 1, byte: 13 }
    );
}

#[test]
fn first_non_digit_is_reported() {
    assert_eq!(
        parse_level(b"1a").unwrap_err(),
        LevelError::NotADigit { row: 0, column: 1, byte: b'a' }
    );
    assert_eq!(
        parse_level(b"12\n3 4\nx").unwrap_err(),
        LevelError::NotADigit { row: 1, column: 1, byte: b' ' }
    );
    assert_eq!(
        level_blocks(b"9\n9\n/").unwrap_err(),
        LevelError::NotADigit { row: 2, column: 0, byte: b'/' }
    );
    assert_eq!(
        level_blocks(b":").unwrap_err(),
        LevelError::NotADigit { row: 0, column: 0, byte: b':' }
    );
}

#[test]
fn trailing_space_is_rejected() {
    assert_eq!(
        parse_level(b"12 \n34").unwrap_err(),
        LevelError::NotADigit { row: 0, column: 2, byte: b' ' }
    );
}

#[test]
fn bytes_beyond_ascii_are_rejected() {
    let text = "1\u{0663}";
    assert_eq!(
        parse_level(text.as_bytes()).unwrap_err(),
        LevelError::NotADigit { row: 0, column: 1, byte: text.as_bytes()[1] }
    );
}

#[test]
fn no_block_is_laid_out_twice() {
    let blocks = level_blocks(b"0123456789\n975\n\n31").unwrap();
    for (i, a) in blocks.iter().enumerate() {
        for b in &blocks[i + 1..] {
            assert_ne!(a, b);
        }
    }
}

#[test]
fn blocks_are_those_of_the_columns_up_to_their_heights() {
    let text = b"407\n12";
    let g = grid("407\n12");
    let blocks = level_blocks(text).unwrap();
    for row in 0..3usize {
        for x in 0..4usize {
            for y in 0..=10u8 {
                let expected = match g.height_at(row, x) {
                    Some(h) => h > 0 && y <= h,
                    None => false,
                };
                assert_eq!(blocks.contains(&Block { x, y, row }), expected);
            }
        }
    }
    assert_eq!(blocks.len(), 5 + 8 + 2 + 3);
}
