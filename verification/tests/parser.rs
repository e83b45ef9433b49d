use skycore::protocol::parserv2::{parse_into_usize, ParseError, Parser};

#[test]
fn test_sizeline_parse() {
    let sizeline = "#125\n".as_bytes();
    let mut parser = Parser::new(&sizeline);
    assert_eq!(125, parser.read_sizeline().unwrap());
    assert_eq!(parser.cursor(), sizeline.len());
}

#[test]
fn test_metaframe_parse() {
    let metaframe = "#2\n!2\n".as_bytes();
    let mut parser = Parser::new(&metaframe);
    assert_eq!(2, parser.parse_metaframe().unwrap());
    assert_eq!(parser.cursor(), metaframe.len());
}

#[test]
fn test_actiongroup_size_parse() {
    let dataframe_layout = "#6\n&12345\n".as_bytes();
    let mut parser = Parser::new(&dataframe_layout);
    assert_eq!(12345, parser.parse_actiongroup_size().unwrap());
    assert_eq!(parser.cursor(), dataframe_layout.len());
}

#[test]
fn sizeline_cursor_is_five() {
    let mut parser = Parser::new(b"#125\n");
    assert_eq!(parser.read_sizeline(), Ok(125));
    assert_eq!(parser.cursor(), 5);
}

#[test]
fn metaframe_cursor_is_six() {
    let mut parser = Parser::new(b"#2\n!2\n");
    assert_eq!(parser.parse_metaframe(), Ok(2));
    assert_eq!(parser.cursor(), 6);
}

#[test]
fn actiongroup_cursor_is_ten() {
    let mut parser = Parser::new(b"#6\n&12345\n");
    assert_eq!(parser.parse_actiongroup_size(), Ok(12345));
    assert_eq!(parser.cursor(), 10);
}

#[test]
fn metaframe_without_room_for_the_action_line_needs_more() {
    let mut parser = Parser::new(b"#3\n!2");
    assert_eq!(parser.parse_metaframe(), Err(ParseError::NotEnough));
    assert_eq!(parser.cursor(), 0);
}

#[test]
fn sizeline_with_wrong_first_byte_is_rejected() {
    let mut parser = Parser::new(b"x2\n");
    assert_eq!(parser.read_sizeline(), Err(ParseError::UnexpectedByte));
    assert_eq!(parser.cursor(), 0);
}

#[test]
fn metaframe_with_wrong_type_byte_is_rejected() {
    let mut parser = Parser::new(b"#2\n?2\n");
    assert_eq!(parser.parse_metaframe(), Err(ParseError::UnexpectedByte));
    assert_eq!(parser.cursor(), 0);
}

#[test]
fn actiongroup_tag_on_a_metaframe_is_rejected() {
    let mut parser = Parser::new(b"#2\n&2\n");
    assert_eq!(parser.parse_metaframe(), Err(ParseError::UnexpectedByte));
    let mut parser = Parser::new(b"#2\n!2\n");
    assert_eq!(parser.parse_actiongroup_size(), Err(ParseError::UnexpectedByte));
}

#[test]
fn empty_buffer_needs_more() {
    let mut parser = Parser::new(b"");
    assert_eq!(parser.read_sizeline(), Err(ParseError::NotEnough));
    assert_eq!(parser.parse_metaframe(), Err(ParseError::NotEnough));
    assert_eq!(parser.parse_actiongroup_size(), Err(ParseError::NotEnough));
    assert_eq!(parser.cursor(), 0);
}

#[test]
fn unterminated_sizeline_needs_more() {
    let mut parser = Parser::new(b"#12");
    assert_eq!(parser.read_sizeline(), Err(ParseError::NotEnough));
    assert_eq!(parser.cursor(), 0);
    let mut parser = Parser::new(b"#");
    assert_eq!(parser.read_sizeline(), Err(ParseError::NotEnough));
}

#[test]
fn unterminated_sizeline_with_a_bad_digit_is_rejected() {
    let mut parser = Parser::new(b"#1x");
    assert_eq!(parser.read_sizeline(), Err(ParseError::UnexpectedByte));
    assert_eq!(parser.cursor(), 0);
}

#[test]
fn sizeline_without_digits_is_zero() {
    let mut parser = Parser::new(b"#\n");
    assert_eq!(parser.read_sizeline(), Ok(0));
    assert_eq!(parser.cursor(), 2);
}

#[test]
fn carriage_return_is_no_digit() {
    let mut parser = Parser::new(b"#12\r\n");
    assert_eq!(parser.read_sizeline(), Err(ParseError::UnexpectedByte));
    assert_eq!(parser.cursor(), 0);
}

#[test]
fn sign_and_space_are_no_digits() {
    assert_eq!(parse_into_usize(b"+1"), Err(ParseError::UnexpectedByte));
    assert_eq!(parse_into_usize(b"-1"), Err(ParseError::UnexpectedByte));
    assert_eq!(parse_into_usize(b" 1"), Err(ParseError::UnexpectedByte));
    assert_eq!(parse_into_usize(b"1 "), Err(ParseError::UnexpectedByte));
    assert_eq!(parse_into_usize(b"/"), Err(ParseError::UnexpectedByte));
    assert_eq!(parse_into_usize(b":"), Err(ParseError::UnexpectedByte));
}

#[test]
fn digits_decode_in_base_ten() {
    assert_eq!(parse_into_usize(b""), Ok(0));
    assert_eq!(parse_into_usize(b"0"), Ok(0));
    assert_eq!(parse_into_usize(b"9"), Ok(9));
    assert_eq!(parse_into_usize(b"007"), Ok(7));
    assert_eq!(parse_into_usize(b"12345"), Ok(12345));
    assert_eq!(parse_into_usize(b"4294967295"), Ok(4294967295));
}

#[test]
fn largest_value_decodes_and_the_next_does_not() {
    let max = format!("{}", usize::MAX);
    assert_eq!(parse_into_usize(max.as_bytes()), Ok(usize::MAX));
    let mut over = max.clone().into_bytes();
    let last = over.len() - 1;
    over[last] += 1;
    assert_eq!(parse_into_usize(&over), Err(ParseError::UnexpectedByte));
    let longer = format!("{}0", usize::MAX);
    assert_eq!(parse_into_usize(longer.as_bytes()), Err(ParseError::UnexpectedByte));
}

#[test]
fn read_until_moves_only_on_success() {
    let mut parser = Parser::new(b"abcdef");
    assert_eq!(parser.read_until(2), Ok(&b"ab"[..]));
    assert_eq!(parser.cursor(), 2);
    assert_eq!(parser.read_until(5), Err(ParseError::NotEnough));
    assert_eq!(parser.cursor(), 2);
    assert_eq!(parser.read_until(usize::MAX), Err(ParseError::NotEnough));
    assert_eq!(parser.cursor(), 2);
    assert_eq!(parser.read_until(0), Ok(&b""[..]));
    assert_eq!(parser.read_until(4), Ok(&b"cdef"[..]));
    assert_eq!(parser.cursor(), 6);
    assert_eq!(parser.read_until(1), Err(ParseError::NotEnough));
}

#[test]
fn read_line_stops_past_the_line_feed() {
    let mut parser = Parser::new(b"ab\ncd\n\nef");
    assert_eq!(parser.read_line(), (0, 2));
    assert_eq!(parser.cursor(), 3);
    assert_eq!(parser.read_line(), (3, 5));
    assert_eq!(parser.cursor(), 6);
    assert_eq!(parser.read_line(), (6, 6));
    assert_eq!(parser.cursor(), 7);
    assert_eq!(parser.read_line(), (7, 9));
    assert_eq!(parser.cursor(), 9);
    assert_eq!(parser.read_line(), (9, 9));
    assert_eq!(parser.cursor(), 9);
}

#[test]
fn incr_cursor_moves_one_byte() {
    let mut parser = Parser::new(b"ab");
    parser.incr_cursor();
    assert_eq!(parser.cursor(), 1);
    parser.incr_cursor();
    assert_eq!(parser.cursor(), 2);
}

#[test]
fn frame_without_its_last_line_feed_needs_more() {
    let mut parser = Parser::new(b"#2\n!2");
    assert_eq!(parser.parse_metaframe(), Err(ParseError::NotEnough));
    assert_eq!(parser.cursor(), 0);
}

#[test]
fn frame_longer_than_its_sizeline_says_is_rejected() {
    let mut parser = Parser::new(b"#2\n!23\n");
    assert_eq!(parser.parse_metaframe(), Err(ParseError::UnexpectedByte));
    assert_eq!(parser.cursor(), 0);
}

#[test]
fn frame_shorter_than_its_sizeline_says_is_rejected() {
    let mut parser = Parser::new(b"#3\n!2\n#");
    assert_eq!(parser.parse_metaframe(), Err(ParseError::UnexpectedByte));
    assert_eq!(parser.cursor(), 0);
}

#[test]
fn frame_of_size_zero_is_rejected() {
    let mut parser = Parser::new(b"#0\n\n");
    assert_eq!(parser.parse_metaframe(), Err(ParseError::UnexpectedByte));
    assert_eq!(parser.cursor(), 0);
}

#[test]
fn frame_with_only_its_type_byte_counts_zero() {
    let mut parser = Parser::new(b"#1\n!\n");
    assert_eq!(parser.parse_metaframe(), Ok(0));
    assert_eq!(parser.cursor(), 5);
}

#[test]
fn frame_with_a_bad_digit_is_rejected() {
    let mut parser = Parser::new(b"#3\n&1x\n");
    assert_eq!(parser.parse_actiongroup_size(), Err(ParseError::UnexpectedByte));
    assert_eq!(parser.cursor(), 0);
}

#[test]
fn frames_follow_one_another() {
    let mut parser = Parser::new(b"#2\n!1\n#3\n&42\nrest");
    assert_eq!(parser.parse_metaframe(), Ok(1));
    assert_eq!(parser.cursor(), 6);
    assert_eq!(parser.parse_actiongroup_size(), Ok(42));
    assert_eq!(parser.cursor(), 13);
    assert_eq!(parser.parse_actiongroup_size(), Err(ParseError::UnexpectedByte));
    assert_eq!(parser.cursor(), 13);
}

#[test]
fn a_failed_read_can_be_tried_again_on_a_longer_buffer() {
    let whole = b"#2\n!7\n";
    let mut cut = 0;
    while cut < whole.len() {
        let mut parser = Parser::new(&whole[..cut]);
        assert_eq!(parser.parse_metaframe(), Err(ParseError::NotEnough));
        assert_eq!(parser.cursor(), 0);
        cut += 1;
    }
    let mut parser = Parser::new(whole);
    assert_eq!(parser.parse_metaframe(), Ok(7));
}
