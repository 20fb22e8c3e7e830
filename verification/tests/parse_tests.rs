use rgbd::{ParseError, CNF};

#[test]
fn parse_example_formula() {
    let cnf = CNF::from_dimacs_format_str("p cnf 5 3\n1 -5 4 0\n-1 5 3 4 0\n-3 -4 0\n").unwrap();
    assert_eq!(cnf.num_variables, 5);
    assert_eq!(cnf.num_clauses, 3);
    assert_eq!(cnf.clauses, vec![vec![1, -5, 4], vec![-1, 5, 3, 4], vec![-3, -4]]);
}

#[test]
fn parse_is_deterministic_on_same_input() {
    let input = "p cnf 5 3\n1 -5 4 0\n-1 5 3 4 0\n-3 -4 0\n";
    let first = CNF::from_dimacs_format_str(input).unwrap();
    let second = CNF::from_dimacs_format_str(input).unwrap();
    assert_eq!(first, second);
}

#[test]
fn parse_str_and_bytes_agree() {
    let input = "p cnf 2 1\n1 -2 0\n";
    let from_str = CNF::from_dimacs_format_str(input).unwrap();
    let from_bytes = CNF::from_dimacs_format(input.as_bytes()).unwrap();
    assert_eq!(from_str, from_bytes);
}

#[test]
fn empty_input_is_missing_header() {
    let err = CNF::from_dimacs_format_str("").unwrap_err();
    assert_eq!(err, ParseError::MissingHeader);
}

#[test]
fn comment_only_input_is_missing_header() {
    let err = CNF::from_dimacs_format_str("c only a comment\n").unwrap_err();
    assert_eq!(err, ParseError::MissingHeader);
}

#[test]
fn missing_terminator_is_clause_terminator_error() {
    let err = CNF::from_dimacs_format_str("p cnf 5 3\n1 -5 4\n").unwrap_err();
    assert_eq!(err, ParseError::ClauseTerminator(b"1 -5 4".to_vec()));
}

#[test]
fn wrong_keyword_is_header_error() {
    let err = CNF::from_dimacs_format_str("p wrong 5 3\n").unwrap_err();
    assert_eq!(err, ParseError::Header(b"p wrong 5 3".to_vec()));
}

#[test]
fn wrong_token_count_is_header_error() {
    let err = CNF::from_dimacs_format_str("p cnf 5\n").unwrap_err();
    assert_eq!(err, ParseError::Header(b"p cnf 5".to_vec()));
}

#[test]
fn non_numeric_count_is_header_error() {
    let err = CNF::from_dimacs_format_str("p cnf five 3\n").unwrap_err();
    assert_eq!(err, ParseError::Header(b"p cnf five 3".to_vec()));
}

#[test]
fn header_keywords_are_case_insensitive() {
    let cnf = CNF::from_dimacs_format_str("P CNF 2 1\n1 2 0\n").unwrap();
    assert_eq!(cnf.num_variables, 2);
    assert_eq!(cnf.num_clauses, 1);
    assert_eq!(cnf.clauses, vec![vec![1, 2]]);
}

#[test]
fn bad_literal_is_literal_parse_error() {
    let err = CNF::from_dimacs_format_str("p cnf 1 1\n1 x 0\n").unwrap_err();
    assert_eq!(err, ParseError::LiteralParse(b"x".to_vec()));
}

#[test]
fn literal_out_of_range_is_literal_parse_error() {
    let err = CNF::from_dimacs_format_str("p cnf 1 1\n99999999999 0\n").unwrap_err();
    assert_eq!(err, ParseError::LiteralParse(b"99999999999".to_vec()));
}

#[test]
fn doubled_zero_is_not_a_terminator() {
    let err = CNF::from_dimacs_format_str("p cnf 1 1\n1 00\n").unwrap_err();
    assert_eq!(err, ParseError::ClauseTerminator(b"1 00".to_vec()));
}

#[test]
fn comments_and_blanks_are_skipped_anywhere() {
    let plain = "p cnf 5 3\n1 -5 4 0\n-1 5 3 4 0\n-3 -4 0\n";
    let sprinkled = "c leading comment\n\np cnf 5 3\nc between header and clauses\n1 -5 4 0\n\
                     C upper-case comment\n-1 5 3 4 0\n   \n-3 -4 0\nc trailing comment\n\n";
    assert_eq!(
        CNF::from_dimacs_format_str(plain).unwrap(),
        CNF::from_dimacs_format_str(sprinkled).unwrap()
    );
}

#[test]
fn surrounding_whitespace_is_trimmed() {
    let cnf = CNF::from_dimacs_format_str("  p cnf 1 1  \r\n  1 0  \r\n").unwrap();
    assert_eq!(cnf.num_variables, 1);
    assert_eq!(cnf.clauses, vec![vec![1]]);
}

#[test]
fn declared_counts_are_not_cross_checked() {
    let cnf = CNF::from_dimacs_format_str("p cnf 99 42\n1 0\n").unwrap();
    assert_eq!(cnf.num_variables, 99);
    assert_eq!(cnf.num_clauses, 42);
    assert_eq!(cnf.clauses, vec![vec![1]]);
}

#[test]
fn plus_signed_counts_parse_as_std_does() {
    let cnf = CNF::from_dimacs_format_str("p cnf +5 3\n+1 -2 0\n").unwrap();
    assert_eq!(cnf.num_variables, 5);
    assert_eq!(cnf.num_clauses, 3);
    assert_eq!(cnf.clauses, vec![vec![1, -2]]);
}

#[test]
fn input_without_trailing_newline_parses() {
    let cnf = CNF::from_dimacs_format_str("p cnf 2 1\n1 -2 0").unwrap();
    assert_eq!(cnf.clauses, vec![vec![1, -2]]);
}

#[test]
fn empty_clause_line_is_just_terminator() {
    let cnf = CNF::from_dimacs_format_str("p cnf 1 1\n0\n").unwrap();
    assert_eq!(cnf.clauses, vec![Vec::<i32>::new()]);
}
