use rgbd::text::{parse_i32_token, parse_usize_token, split_bytes, trim_bytes};

#[test]
fn split_keeps_empty_pieces() {
    let pieces = split_bytes(b"a  b", 32);
    assert_eq!(pieces, vec![b"a".to_vec(), b"".to_vec(), b"b".to_vec()]);
}

#[test]
fn split_of_empty_input_is_one_empty_piece() {
    assert_eq!(split_bytes(b"", 10), vec![b"".to_vec()]);
}

#[test]
fn split_with_trailing_separator_ends_with_empty_piece() {
    assert_eq!(split_bytes(b"x\n", 10), vec![b"x".to_vec(), b"".to_vec()]);
}

#[test]
fn trim_removes_surrounding_whitespace_only() {
    assert_eq!(trim_bytes(b" \t a b \r\n"), b"a b");
    assert_eq!(trim_bytes(b"   "), b"");
    assert_eq!(trim_bytes(b"xy"), b"xy");
}

#[test]
fn usize_tokens_parse_as_std_does() {
    assert_eq!(parse_usize_token(b"0"), Some(0));
    assert_eq!(parse_usize_token(b"42"), Some(42));
    assert_eq!(parse_usize_token(b"+7"), Some(7));
    assert_eq!(parse_usize_token(b""), None);
    assert_eq!(parse_usize_token(b"+"), None);
    assert_eq!(parse_usize_token(b"4x"), None);
    assert_eq!(parse_usize_token(b"-1"), None);
    assert_eq!(
        parse_usize_token(usize::MAX.to_string().as_bytes()),
        Some(usize::MAX)
    );
    assert_eq!(parse_usize_token(b"99999999999999999999999999"), None);
}

#[test]
fn i32_tokens_parse_as_std_does() {
    assert_eq!(parse_i32_token(b"-5"), Some(-5));
    assert_eq!(parse_i32_token(b"+5"), Some(5));
    assert_eq!(parse_i32_token(b"-0"), Some(0));
    assert_eq!(parse_i32_token(b"-2147483648"), Some(i32::MIN));
    assert_eq!(parse_i32_token(b"2147483647"), Some(i32::MAX));
    assert_eq!(parse_i32_token(b"2147483648"), None);
    assert_eq!(parse_i32_token(b"-2147483649"), None);
    assert_eq!(parse_i32_token(b"-"), None);
    assert_eq!(parse_i32_token(b"1-2"), None);
}
