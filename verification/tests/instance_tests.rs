use std::io::Write;

use rgbd::{read_instance, InstanceError, ParseError};

fn xz_compress(plain: &[u8]) -> Vec<u8> {
    let mut encoder = xz2::write::XzEncoder::new(Vec::new(), 6);
    encoder.write_all(plain).unwrap();
    encoder.finish().unwrap()
}

#[test]
fn reads_a_compressed_instance() {
    let compressed = xz_compress(b"p cnf 5 3\n1 -5 4 0\n-1 5 3 4 0\n-3 -4 0\n");
    assert_ne!(compressed, b"p cnf 5 3\n1 -5 4 0\n-1 5 3 4 0\n-3 -4 0\n".to_vec());
    let cnf = read_instance(&compressed).unwrap();
    assert_eq!(cnf.num_variables, 5);
    assert_eq!(cnf.num_clauses, 3);
    assert_eq!(cnf.clauses, vec![vec![1, -5, 4], vec![-1, 5, 3, 4], vec![-3, -4]]);
}

#[test]
fn malformed_stream_is_a_decode_error() {
    let err = read_instance(b"this is not an xz stream").unwrap_err();
    assert_eq!(err, InstanceError::Decode);
}

#[test]
fn bad_dimacs_inside_stream_is_a_parse_error() {
    let compressed = xz_compress(b"p wrong 5 3\n");
    let err = read_instance(&compressed).unwrap_err();
    assert_eq!(
        err,
        InstanceError::Parse(ParseError::Header(b"p wrong 5 3".to_vec()))
    );
}
