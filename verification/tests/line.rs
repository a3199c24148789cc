use linescan::error::ScanError;
use linescan::line::{
    expect_end, parse_all, parse_at, parse_one, parse_split, parse_split_with, parse_tuple1,
    parse_tuple2, parse_tuple3, parse_tuple4,
};
use linescan::tokens::split_whitespace;

fn line_of(s: &str) -> Vec<char> {
    s.chars().collect()
}

#[test]
fn one_value_is_the_trimmed_line() {
    assert_eq!(parse_one::<i32>(&line_of("  -17 \r\n")), Ok(-17));
    assert_eq!(parse_one::<u64>(&line_of("18446744073709551615")), Ok(u64::MAX));
    assert_eq!(parse_one::<char>(&line_of(" x ")), Ok('x'));
    assert_eq!(parse_one::<String>(&line_of("  two words \n")), Ok(String::from("two words")));
}

#[test]
fn one_value_agrees_with_parsing_the_text() {
    for s in ["0", "-1", "+1", "2147483647", "-2147483648", "12345"] {
        let line = format!("{}\n", s);
        assert_eq!(parse_one::<i32>(&line_of(&line)).ok(), s.parse::<i32>().ok());
        assert_eq!(parse_one::<String>(&line_of(&line)).ok(), s.parse::<String>().ok());
    }
}

#[test]
fn one_value_of_two_tokens_fails_for_a_number() {
    assert_eq!(parse_one::<i32>(&line_of("3 4")), Err(ScanError::ParseFailure));
}

#[test]
fn one_value_of_blank_line_fails() {
    assert_eq!(parse_one::<i32>(&line_of("")), Err(ScanError::ParseFailure));
    assert_eq!(parse_one::<i32>(&line_of("   \n")), Err(ScanError::ParseFailure));
    assert_eq!(parse_one::<String>(&line_of("")), Err(ScanError::ParseFailure));
    assert_eq!(parse_one::<String>(&line_of(" \t\n")), Err(ScanError::ParseFailure));
}

#[test]
fn one_value_out_of_range_fails() {
    assert_eq!(parse_one::<u8>(&line_of("256")), Err(ScanError::ParseFailure));
    assert_eq!(parse_one::<i8>(&line_of("-129")), Err(ScanError::ParseFailure));
}

#[test]
fn split_keeps_token_order() {
    assert_eq!(parse_split::<i64>(&line_of(" 5  -3\t12 \n")), Ok(vec![5, -3, 12]));
    assert_eq!(
        parse_split::<String>(&line_of("to be or")),
        Ok(vec![String::from("to"), String::from("be"), String::from("or")])
    );
    assert_eq!(parse_split::<char>(&line_of("a b c")), Ok(vec!['a', 'b', 'c']));
}

#[test]
fn split_agrees_with_parsing_each_token() {
    for s in ["1 2 3", "  10\t20  ", "7", "-1 +1 0", "1\u{a0}2"] {
        let expected: Vec<i32> = s.split_whitespace().map(|t| t.parse::<i32>().unwrap()).collect();
        assert_eq!(parse_split::<i32>(&line_of(s)), Ok(expected), "{:?}", s);
    }
}

#[test]
fn split_of_whitespace_only_line_is_empty() {
    assert_eq!(parse_split::<i32>(&line_of("")), Ok(vec![]));
    assert_eq!(parse_split::<i32>(&line_of("\n")), Ok(vec![]));
    assert_eq!(parse_split::<i32>(&line_of("  \t \r\n")), Ok(vec![]));
    assert_eq!(parse_split::<String>(&line_of(" \u{3000} ")), Ok(vec![]));
}

#[test]
fn split_with_a_bad_token_fails() {
    assert_eq!(parse_split::<i32>(&line_of("1 two 3")), Err(ScanError::ParseFailure));
    assert_eq!(parse_split::<u8>(&line_of("1 2 300")), Err(ScanError::ParseFailure));
}

#[test]
fn split_with_delimiter_keeps_token_order() {
    assert_eq!(parse_split_with::<i32>(&line_of("1,2,3"), ','), Ok(vec![1, 2, 3]));
    assert_eq!(parse_split_with::<i32>(&line_of(" 1;-2;3 \n"), ';'), Ok(vec![1, -2, 3]));
    assert_eq!(parse_split_with::<i32>(&line_of("15"), ','), Ok(vec![15]));
}

#[test]
fn split_with_delimiter_keeps_empty_tokens() {
    assert_eq!(
        parse_split_with::<String>(&line_of("a,,b,"), ','),
        Ok(vec![String::from("a"), String::new(), String::from("b"), String::new()])
    );
    assert_eq!(parse_split_with::<i32>(&line_of("1,,3"), ','), Err(ScanError::ParseFailure));
    assert_eq!(parse_split_with::<i32>(&line_of("1,2,"), ','), Err(ScanError::ParseFailure));
}

#[test]
fn split_with_delimiter_does_not_trim_tokens() {
    assert_eq!(parse_split_with::<i32>(&line_of("1, 2"), ','), Err(ScanError::ParseFailure));
    assert_eq!(
        parse_split_with::<String>(&line_of(" a , b "), ','),
        Ok(vec![String::from("a "), String::from(" b")])
    );
}

#[test]
fn split_with_delimiter_of_blank_line_is_empty() {
    assert_eq!(parse_split_with::<i32>(&line_of(""), ','), Ok(vec![]));
    assert_eq!(parse_split_with::<i32>(&line_of("  \n"), ','), Ok(vec![]));
    assert_eq!(parse_split_with::<String>(&line_of("\n"), ','), Ok(vec![]));
}

#[test]
fn all_tokens_stop_at_the_first_bad_one() {
    let line = line_of("4 x 6");
    let tokens = split_whitespace(&line);
    assert_eq!(parse_all::<i32>(&tokens), Err(ScanError::ParseFailure));
    assert_eq!(
        parse_all::<String>(&tokens),
        Ok(vec![String::from("4"), String::from("x"), String::from("6")])
    );
}

#[test]
fn token_at_a_position() {
    let line = line_of("4 x");
    let tokens = split_whitespace(&line);
    assert_eq!(parse_at::<i32>(&tokens, 0), Ok(4));
    assert_eq!(parse_at::<i32>(&tokens, 1), Err(ScanError::ParseFailure));
    assert_eq!(parse_at::<char>(&tokens, 1), Ok('x'));
    assert_eq!(parse_at::<i32>(&tokens, 2), Err(ScanError::TokenCountMismatch));
    assert_eq!(expect_end(&tokens, 2), Ok(()));
    assert_eq!(expect_end(&tokens, 3), Ok(()));
    assert_eq!(expect_end(&tokens, 1), Err(ScanError::TokenCountMismatch));
}

#[test]
fn tuples_of_each_size() {
    assert_eq!(parse_tuple1::<i32>(&line_of(" 9 \n")), Ok((9,)));
    assert_eq!(parse_tuple2::<i32, i32>(&line_of("3 4")), Ok((3, 4)));
    assert_eq!(
        parse_tuple3::<u8, String, char>(&line_of("7  seven\tx\n")),
        Ok((7, String::from("seven"), 'x'))
    );
    assert_eq!(
        parse_tuple4::<i64, u64, i8, usize>(&line_of("-1 2 -3 4")),
        Ok((-1, 2, -3, 4))
    );
}

#[test]
fn tuples_need_the_exact_token_count() {
    assert_eq!(parse_tuple1::<i32>(&line_of("")), Err(ScanError::TokenCountMismatch));
    assert_eq!(parse_tuple1::<i32>(&line_of("1 2")), Err(ScanError::TokenCountMismatch));
    assert_eq!(parse_tuple1::<String>(&line_of("two words")), Err(ScanError::TokenCountMismatch));
    assert_eq!(parse_tuple2::<i32, i32>(&line_of("3")), Err(ScanError::TokenCountMismatch));
    assert_eq!(parse_tuple2::<i32, i32>(&line_of("3 4 5")), Err(ScanError::TokenCountMismatch));
    assert_eq!(parse_tuple2::<i32, i32>(&line_of(" \n")), Err(ScanError::TokenCountMismatch));
    assert_eq!(parse_tuple3::<i32, i32, i32>(&line_of("1 2")), Err(ScanError::TokenCountMismatch));
    assert_eq!(
        parse_tuple3::<i32, i32, i32>(&line_of("1 2 3 4")),
        Err(ScanError::TokenCountMismatch)
    );
    assert_eq!(
        parse_tuple4::<i32, i32, i32, i32>(&line_of("1 2 3")),
        Err(ScanError::TokenCountMismatch)
    );
    assert_eq!(
        parse_tuple4::<i32, i32, i32, i32>(&line_of("1 2 3 4 5")),
        Err(ScanError::TokenCountMismatch)
    );
}

#[test]
fn tuples_report_the_first_failure_from_the_left() {
    assert_eq!(parse_tuple2::<i32, i32>(&line_of("x")), Err(ScanError::ParseFailure));
    assert_eq!(parse_tuple2::<i32, i32>(&line_of("3 x")), Err(ScanError::ParseFailure));
    assert_eq!(parse_tuple2::<i32, i32>(&line_of("3 x 5")), Err(ScanError::ParseFailure));
    assert_eq!(parse_tuple2::<i32, i32>(&line_of("3 4 x")), Err(ScanError::TokenCountMismatch));
    assert_eq!(parse_tuple3::<i32, i32, i32>(&line_of("1 x")), Err(ScanError::ParseFailure));
    assert_eq!(parse_tuple3::<i32, u8, i32>(&line_of("1 256 3")), Err(ScanError::ParseFailure));
    assert_eq!(parse_tuple4::<i32, i32, i32, i32>(&line_of("1 2 3 x 5")), Err(ScanError::ParseFailure));
}
