//! Instance metadata rows: the sizes and satisfiability results stored in
//! the auxiliary databases, and the per-row conversions from their text
//! columns. Reading the databases themselves is the caller's concern.

use vstd::prelude::*;

use crate::text::{is_usize_token, parse_usize_token, usize_token_val};

verus! {

/// Sizes of an instance, as declared by the `base` database.
#[derive(Debug, Clone, Copy, PartialEq, Eq, PartialOrd, Ord, Hash, Structural)]
pub struct Size {
    pub variables: usize,
    pub clauses: usize,
    pub bytes: usize,
}

/// Whether the instance is satisfiable or not.
#[derive(Debug, Clone, Copy, PartialEq, Eq, PartialOrd, Ord, Hash, Structural)]
pub enum SatResult {
    Sat,
    UnSat,
    Unknown,
}

/// A size column that is neither the sentinel `empty` nor an unsigned
/// count.
#[derive(Debug, Clone, PartialEq, Eq)]
pub struct SizeFormatError {
    /// The offending column text.
    pub column: Vec<u8>,
}

/// The bytes of the sentinel value `empty`.
pub open spec fn empty_sentinel() -> Seq<u8> {
    seq![101u8, 109u8, 112u8, 116u8, 121u8]
}

/// The bytes of the result value `sat`.
pub open spec fn sat_bytes() -> Seq<u8> {
    seq![115u8, 97u8, 116u8]
}

/// The bytes of the result value `unsat`.
pub open spec fn unsat_bytes() -> Seq<u8> {
    seq![117u8, 110u8, 115u8, 97u8, 116u8]
}

/// The meaning of a `result` column: `sat`, `unsat`, anything else is
/// unknown.
pub open spec fn spec_sat_result(s: Seq<u8>) -> SatResult {
    if s == sat_bytes() {
        SatResult::Sat
    } else if s == unsat_bytes() {
        SatResult::UnSat
    } else {
        SatResult::Unknown
    }
}

/// The meaning of one row's size columns: the sentinel `empty` in any
/// column means the instance has no size information; otherwise all three
/// must be unsigned counts, and the first that is not fails the row.
pub open spec fn spec_size_row(variables: Seq<u8>, clauses: Seq<u8>, bytes: Seq<u8>) -> Result<
    Option<(int, int, int)>,
    Seq<u8>,
> {
    if variables == empty_sentinel() || clauses == empty_sentinel() || bytes == empty_sentinel() {
        Ok(None)
    } else if !is_usize_token(variables) {
        Err(variables)
    } else if !is_usize_token(clauses) {
        Err(clauses)
    } else if !is_usize_token(bytes) {
        Err(bytes)
    } else {
        Ok(Some((usize_token_val(variables), usize_token_val(clauses), usize_token_val(bytes))))
    }
}

fn is_empty_sentinel(s: &[u8]) -> (r: bool)
    ensures
        r == (s@ == empty_sentinel()),
{
    if s.len() == 5 && s[0] == 101 && s[1] == 109 && s[2] == 112 && s[3] == 116 && s[4] == 121 {
        assert(s@ =~= empty_sentinel());
        true
    } else {
        assert(s@ != empty_sentinel());
        false
    }
}

/// The satisfiability result named by a `result` column.
pub fn sat_result_of(result: &[u8]) -> (r: SatResult)
    ensures
        r == spec_sat_result(result@),
{
    if result.len() == 3 && result[0] == 115 && result[1] == 97 && result[2] == 116 {
        assert(result@ =~= sat_bytes());
        SatResult::Sat
    } else if result.len() == 5 && result[0] == 117 && result[1] == 110 && result[2] == 115
        && result[3] == 97 && result[4] == 116 {
        assert(result@ =~= unsat_bytes());
        SatResult::UnSat
    } else {
        assert(result@ != sat_bytes());
        assert(result@ != unsat_bytes());
        SatResult::Unknown
    }
}

/// The sizes named by one row's columns, or `None` for a row with the
/// sentinel `empty` anywhere.
pub fn size_of_row(variables: &[u8], clauses: &[u8], bytes: &[u8]) -> (r: Result<
    Option<Size>,
    SizeFormatError,
>)
    ensures
        match r {
            Ok(opt) => match opt {
                Some(size) => spec_size_row(variables@, clauses@, bytes@) == Ok::<
                    Option<(int, int, int)>,
                    Seq<u8>,
                >(
                    Some(
                        (size.variables as int, size.clauses as int, size.bytes as int),
                    ),
                ),
                None => spec_size_row(variables@, clauses@, bytes@) == Ok::<
                    Option<(int, int, int)>,
                    Seq<u8>,
                >(None),
            },
            Err(e) => spec_size_row(variables@, clauses@, bytes@) == Err::<
                Option<(int, int, int)>,
                Seq<u8>,
            >(e.column@),
        },
{
    if is_empty_sentinel(variables) || is_empty_sentinel(clauses) || is_empty_sentinel(bytes) {
        return Ok(None);
    }
    let v = match parse_usize_token(variables) {
        Some(v) => v,
        None => {
            return Err(SizeFormatError { column: vstd::slice::slice_to_vec(variables) });
        },
    };
    let c = match parse_usize_token(clauses) {
        Some(c) => c,
        None => {
            return Err(SizeFormatError { column: vstd::slice::slice_to_vec(clauses) });
        },
    };
    let b = match parse_usize_token(bytes) {
        Some(b) => b,
        None => {
            return Err(SizeFormatError { column: vstd::slice::slice_to_vec(bytes) });
        },
    };
    Ok(Some(Size { variables: v, clauses: c, bytes: b }))
}

} // verus!
