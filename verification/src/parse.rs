//! DIMACS CNF parsing: a line-oriented, deterministic translation of the
//! text format into a structured formula.
//!
//! Classification of lines, the header shape, clause terminators and
//! literal tokens follow the format exactly: blank lines and `c`/`C`
//! comment lines are skipped anywhere; the first significant line must be
//! `p cnf <num_variables> <num_clauses>` (keywords case-insensitive);
//! every later significant line is a clause ending in the token `0`.

use vstd::prelude::*;

use crate::text::{
    i32_token_val, is_i32_token, is_usize_token, parse_i32_token, parse_usize_token, spec_split,
    spec_trim, split_bytes, trim_bytes, usize_token_val,
};

verus! {

broadcast use crate::text::lemma_bytes_deep_view;

/// CNF (Conjunctive Normal Form) representation.
///
/// `num_variables` and `num_clauses` are the header's declared counts; they
/// are not cross-checked against `clauses` by design.
#[derive(Debug, Clone, PartialEq, Eq, Hash)]
pub struct CNF {
    pub num_variables: usize,
    pub num_clauses: usize,
    pub clauses: Vec<Vec<i32>>,
}

/// Mathematical model of a parsed formula.
pub struct CnfView {
    pub num_variables: int,
    pub num_clauses: int,
    pub clauses: Seq<Seq<i32>>,
}

impl View for CNF {
    type V = CnfView;

    open spec fn view(&self) -> CnfView {
        CnfView {
            num_variables: self.num_variables as int,
            num_clauses: self.num_clauses as int,
            clauses: self.clauses.deep_view(),
        }
    }
}

/// Why a DIMACS parse failed; variants carry the offending line or token.
#[derive(Debug, Clone, PartialEq, Eq)]
pub enum ParseError {
    /// The input has no significant line at all.
    MissingHeader,
    /// The first significant line is not `p cnf <vars> <clauses>`.
    Header(Vec<u8>),
    /// A clause line does not end in the terminator token `0`.
    ClauseTerminator(Vec<u8>),
    /// A clause token is not a signed 32-bit integer.
    LiteralParse(Vec<u8>),
}

/// Mathematical model of a parse failure.
pub enum ParseErrorView {
    MissingHeader,
    Header(Seq<u8>),
    ClauseTerminator(Seq<u8>),
    LiteralParse(Seq<u8>),
}

impl View for ParseError {
    type V = ParseErrorView;

    open spec fn view(&self) -> ParseErrorView {
        match self {
            ParseError::MissingHeader => ParseErrorView::MissingHeader,
            ParseError::Header(line) => ParseErrorView::Header(line@),
            ParseError::ClauseTerminator(line) => ParseErrorView::ClauseTerminator(line@),
            ParseError::LiteralParse(tok) => ParseErrorView::LiteralParse(tok@),
        }
    }
}

/// A trimmed line carrying no content: empty, or a `c`/`C` comment.
pub open spec fn is_skippable(trimmed: Seq<u8>) -> bool {
    trimmed.len() == 0 || trimmed.first() == 99 || trimmed.first() == 67
}

/// The trimmed significant lines of `lines`, in order.
pub open spec fn significant_lines(lines: Seq<Seq<u8>>) -> Seq<Seq<u8>>
    decreases lines.len(),
{
    if lines.len() == 0 {
        Seq::empty()
    } else {
        let t = spec_trim(lines.first());
        let rest = significant_lines(lines.drop_first());
        if is_skippable(t) {
            rest
        } else {
            seq![t] + rest
        }
    }
}

/// ASCII lower-casing of one byte.
pub open spec fn lower(b: u8) -> u8 {
    if 65 <= b && b <= 90 {
        (b + 32) as u8
    } else {
        b
    }
}

/// The header's required shape: exactly 4 space-separated tokens,
/// `p` and `cnf` case-insensitively, then two unsigned counts.
pub open spec fn header_ok(toks: Seq<Seq<u8>>) -> bool {
    &&& toks.len() == 4
    &&& toks[0].len() == 1 && lower(toks[0][0]) == 112
    &&& toks[1].len() == 3 && lower(toks[1][0]) == 99 && lower(toks[1][1]) == 110 && lower(
        toks[1][2],
    ) == 102
    &&& is_usize_token(toks[2])
    &&& is_usize_token(toks[3])
}

/// The declared counts of a header line, or the verbatim line on failure.
pub open spec fn spec_header(line: Seq<u8>) -> Result<(int, int), ParseErrorView> {
    let toks = spec_split(line, 32);
    if header_ok(toks) {
        Ok((usize_token_val(toks[2]), usize_token_val(toks[3])))
    } else {
        Err(ParseErrorView::Header(line))
    }
}

/// The literals of a clause's tokens (terminator already removed); the
/// first token that is not a signed 32-bit integer fails the clause.
pub open spec fn spec_literals(toks: Seq<Seq<u8>>) -> Result<Seq<i32>, ParseErrorView>
    decreases toks.len(),
{
    if toks.len() == 0 {
        Ok(Seq::empty())
    } else if !is_i32_token(toks.first()) {
        Err(ParseErrorView::LiteralParse(toks.first()))
    } else {
        match spec_literals(toks.drop_first()) {
            Ok(rest) => Ok(seq![i32_token_val(toks.first()) as i32] + rest),
            Err(e) => Err(e),
        }
    }
}

/// One clause line: its last token must be exactly `0`; the tokens before
/// it are the clause's literals.
pub open spec fn spec_clause(line: Seq<u8>) -> Result<Seq<i32>, ParseErrorView> {
    let toks = spec_split(line, 32);
    if toks.len() == 0 || toks.last() != seq![48u8] {
        Err(ParseErrorView::ClauseTerminator(line))
    } else {
        spec_literals(toks.drop_last())
    }
}

/// The clauses of the significant lines after the header, in input order;
/// the first failing line fails the whole parse.
pub open spec fn spec_clauses(lines: Seq<Seq<u8>>) -> Result<Seq<Seq<i32>>, ParseErrorView>
    decreases lines.len(),
{
    if lines.len() == 0 {
        Ok(Seq::empty())
    } else {
        match spec_clause(lines.first()) {
            Err(e) => Err(e),
            Ok(c) => match spec_clauses(lines.drop_first()) {
                Err(e) => Err(e),
                Ok(cs) => Ok(seq![c] + cs),
            },
        }
    }
}

/// The parse of a sequence of raw lines.
pub open spec fn spec_parse_lines(lines: Seq<Seq<u8>>) -> Result<CnfView, ParseErrorView> {
    let sig = significant_lines(lines);
    if sig.len() == 0 {
        Err(ParseErrorView::MissingHeader)
    } else {
        match spec_header(sig.first()) {
            Err(e) => Err(e),
            Ok(counts) => match spec_clauses(sig.drop_first()) {
                Err(e) => Err(e),
                Ok(cs) => Ok(
                    CnfView { num_variables: counts.0, num_clauses: counts.1, clauses: cs },
                ),
            },
        }
    }
}

/// The parse of raw input bytes: split into lines on `\n`, then parse.
pub open spec fn spec_parse(input: Seq<u8>) -> Result<CnfView, ParseErrorView> {
    spec_parse_lines(spec_split(input, 10))
}

/// `r` with the clauses `pre` prepended on success.
pub open spec fn with_clause_prefix(
    pre: Seq<Seq<i32>>,
    r: Result<Seq<Seq<i32>>, ParseErrorView>,
) -> Result<Seq<Seq<i32>>, ParseErrorView> {
    match r {
        Ok(cs) => Ok(pre + cs),
        Err(e) => Err(e),
    }
}

/// `r` with the literals `pre` prepended on success.
pub open spec fn with_literal_prefix(pre: Seq<i32>, r: Result<Seq<i32>, ParseErrorView>) -> Result<
    Seq<i32>,
    ParseErrorView,
> {
    match r {
        Ok(rest) => Ok(pre + rest),
        Err(e) => Err(e),
    }
}

fn lower_byte(b: u8) -> (r: u8)
    ensures
        r == lower(b),
{
    if 65 <= b && b <= 90 {
        b + 32
    } else {
        b
    }
}

/// Parses the header line, yielding the declared counts.
fn parse_header_line(line: &Vec<u8>) -> (r: Result<(usize, usize), ParseError>)
    ensures
        match r {
            Ok(counts) => spec_header(line@) == Ok::<(int, int), ParseErrorView>(
                (counts.0 as int, counts.1 as int),
            ),
            Err(e) => spec_header(line@) == Err::<(int, int), ParseErrorView>(e@),
        },
{
    let toks = split_bytes(line.as_slice(), 32);
    let ghost tv = toks.deep_view();
    if toks.len() != 4 {
        assert(!header_ok(tv));
        return Err(ParseError::Header(clone_bytes(line)));
    }
    let kw_ok = toks[0].len() == 1 && lower_byte(toks[0][0]) == 112 && toks[1].len() == 3
        && lower_byte(toks[1][0]) == 99 && lower_byte(toks[1][1]) == 110 && lower_byte(
        toks[1][2],
    ) == 102;
    if !kw_ok {
        assert(!header_ok(tv));
        return Err(ParseError::Header(clone_bytes(line)));
    }
    let nv = parse_usize_token(toks[2].as_slice());
    let nc = parse_usize_token(toks[3].as_slice());
    match (nv, nc) {
        (Some(v), Some(c)) => {
            assert(header_ok(tv));
            Ok((v, c))
        },
        _ => {
            assert(!header_ok(tv));
            Err(ParseError::Header(clone_bytes(line)))
        },
    }
}

/// Owns a copy of a byte line, for carrying it in an error.
fn clone_bytes(v: &Vec<u8>) -> (r: Vec<u8>)
    ensures
        r@ == v@,
{
    vstd::slice::slice_to_vec(v.as_slice())
}

/// Parses one clause line: terminator check, then the literal tokens.
fn parse_clause_line(line: &Vec<u8>) -> (r: Result<Vec<i32>, ParseError>)
    ensures
        match r {
            Ok(c) => spec_clause(line@) == Ok::<Seq<i32>, ParseErrorView>(c@),
            Err(e) => spec_clause(line@) == Err::<Seq<i32>, ParseErrorView>(e@),
        },
{
    let toks = split_bytes(line.as_slice(), 32);
    let ghost tv = toks.deep_view();
    let n = toks.len();
    if n == 0 {
        return Err(ParseError::ClauseTerminator(clone_bytes(line)));
    }
    let last = &toks[n - 1];
    if !(last.len() == 1 && last[0] == 48) {
        proof {
            assert(tv.last() == last@);
            assert(tv.last() != seq![48u8]);
        }
        return Err(ParseError::ClauseTerminator(clone_bytes(line)));
    }
    proof {
        assert(tv.last() =~= seq![48u8]);
    }
    let ghost body = tv.drop_last();
    let m = n - 1;
    let mut lits: Vec<i32> = Vec::new();
    let mut j: usize = 0;
    proof {
        assert(body.skip(0) =~= body);
        assert(spec_literals(body) == with_literal_prefix(lits@, spec_literals(body.skip(0))));
    }
    while j < m
        invariant
            m + 1 == tv.len(),
            tv == toks.deep_view(),
            m + 1 == toks.len(),
            body == tv.drop_last(),
            j <= m,
            spec_clause(line@) == spec_literals(body),
            spec_literals(body) == with_literal_prefix(lits@, spec_literals(body.skip(j as int))),
        decreases m - j,
    {
        let tok = &toks[j];
        let ghost rem = body.skip(j as int);
        proof {
            assert(rem.first() == body[j as int]);
            assert(body[j as int] == tv[j as int]);
            assert(rem.drop_first() =~= body.skip(j + 1));
        }
        match parse_i32_token(tok.as_slice()) {
            Some(v) => {
                let ghost old_lits = lits@;
                lits.push(v);
                proof {
                    assert(spec_literals(rem) == with_literal_prefix(
                        seq![i32_token_val(rem.first()) as i32],
                        spec_literals(body.skip(j + 1)),
                    ));
                    assert(old_lits + seq![v] =~= lits@);
                    match spec_literals(body.skip(j + 1)) {
                        Ok(rest) => {
                            assert(old_lits + (seq![v] + rest) =~= lits@ + rest);
                        },
                        Err(_) => {},
                    }
                }
            },
            None => {
                proof {
                    assert(spec_literals(rem) == Err::<Seq<i32>, ParseErrorView>(
                        ParseErrorView::LiteralParse(tok@),
                    ));
                }
                return Err(ParseError::LiteralParse(clone_bytes(tok)));
            },
        }
        j = j + 1;
    }
    proof {
        assert(body.skip(m as int) =~= Seq::<Seq<u8>>::empty());
        assert(spec_literals(body) == Ok::<Seq<i32>, ParseErrorView>(lits@ + Seq::empty()));
        assert(lits@ + Seq::<i32>::empty() =~= lits@);
    }
    Ok(lits)
}

impl CNF {
    /// Parses DIMACS CNF text given as a string.
    pub fn from_dimacs_format_str(input: &str) -> (r: Result<CNF, ParseError>)
        ensures
            match r {
                Ok(cnf) => spec_parse(vstd::utf8::encode_utf8(input@)) == Ok::<
                    CnfView,
                    ParseErrorView,
                >(cnf@),
                Err(e) => spec_parse(vstd::utf8::encode_utf8(input@)) == Err::<
                    CnfView,
                    ParseErrorView,
                >(e@),
            },
    {
        Self::from_dimacs_format(input.as_bytes())
    }

    /// Parses DIMACS CNF text given as raw bytes.
    pub fn from_dimacs_format(input: &[u8]) -> (r: Result<CNF, ParseError>)
        ensures
            match r {
                Ok(cnf) => spec_parse(input@) == Ok::<CnfView, ParseErrorView>(cnf@),
                Err(e) => spec_parse(input@) == Err::<CnfView, ParseErrorView>(e@),
            },
    {
        let lines = split_bytes(input, 10);
        let ghost lv = lines.deep_view();
        let n = lines.len();

        // Keep only the trimmed significant lines.
        let mut sig: Vec<Vec<u8>> = Vec::new();
        let mut k: usize = 0;
        proof {
            assert(lv.skip(0) =~= lv);
            assert(sig.deep_view() + significant_lines(lv) =~~= significant_lines(lv));
        }
        while k < n
            invariant
                n == lines.len(),
                lv == lines.deep_view(),
                k <= n,
                significant_lines(lv) == sig.deep_view() + significant_lines(lv.skip(k as int)),
            decreases n - k,
        {
            let ghost rem = lv.skip(k as int);
            proof {
                assert(rem.first() == lv[k as int]);
                assert(rem.drop_first() =~= lv.skip(k + 1));
            }
            let t = trim_bytes(lines[k].as_slice());
            if t.len() == 0 || t[0] == 99 || t[0] == 67 {
                proof {
                    assert(is_skippable(spec_trim(rem.first())));
                }
            } else {
                let ghost old_sig = sig.deep_view();
                sig.push(vstd::slice::slice_to_vec(t));
                proof {
                    assert(!is_skippable(spec_trim(rem.first())));
                    assert(sig.deep_view() =~~= old_sig.push(t@));
                    assert(old_sig + (seq![t@] + significant_lines(lv.skip(k + 1))) =~~= sig.deep_view()
                        + significant_lines(lv.skip(k + 1)));
                }
            }
            k = k + 1;
        }
        proof {
            assert(lv.skip(n as int) =~= Seq::<Seq<u8>>::empty());
            assert(sig.deep_view() + Seq::<Seq<u8>>::empty() =~~= sig.deep_view());
        }
        let ghost sv = sig.deep_view();
        assert(sv == significant_lines(lv));

        if sig.len() == 0 {
            return Err(ParseError::MissingHeader);
        }

        let counts = match parse_header_line(&sig[0]) {
            Ok(counts) => counts,
            Err(e) => {
                return Err(e);
            },
        };

        let s = sig.len();
        let ghost rest = sv.drop_first();
        let mut clauses: Vec<Vec<i32>> = Vec::new();
        let mut k2: usize = 1;
        proof {
            assert(rest.skip(0) =~= rest);
            assert(clauses.deep_view() + Seq::<Seq<i32>>::empty() =~~= clauses.deep_view());
        }
        while k2 < s
            invariant
                s == sig.len(),
                sv == sig.deep_view(),
                lv == spec_split(input@, 10),
                sv == significant_lines(lv),
                spec_header(sv.first()) == Ok::<(int, int), ParseErrorView>(
                    (counts.0 as int, counts.1 as int),
                ),
                rest == sv.drop_first(),
                1 <= k2 <= s,
                spec_clauses(rest) == with_clause_prefix(
                    clauses.deep_view(),
                    spec_clauses(rest.skip(k2 - 1)),
                ),
            decreases s - k2,
        {
            let ghost rem = rest.skip(k2 - 1);
            proof {
                assert(rem.first() == rest[k2 - 1]);
                assert(rest[k2 - 1] == sv[k2 as int]);
                assert(rem.drop_first() =~= rest.skip(k2 as int));
            }
            match parse_clause_line(&sig[k2]) {
                Ok(c) => {
                    let ghost old_cl = clauses.deep_view();
                    let ghost cv = c@;
                    clauses.push(c);
                    proof {
                        assert(spec_clauses(rem) == with_clause_prefix(
                            seq![cv],
                            spec_clauses(rest.skip(k2 as int)),
                        ));
                        assert(clauses.deep_view() =~~= old_cl.push(cv));
                        match spec_clauses(rest.skip(k2 as int)) {
                            Ok(cs) => {
                                assert(old_cl + (seq![cv] + cs) =~~= clauses.deep_view() + cs);
                            },
                            Err(_) => {},
                        }
                    }
                },
                Err(e) => {
                    proof {
                        assert(spec_clauses(rem) == Err::<Seq<Seq<i32>>, ParseErrorView>(e@));
                    }
                    return Err(e);
                },
            }
            k2 = k2 + 1;
        }
        proof {
            assert(rest.skip(s - 1) =~= Seq::<Seq<u8>>::empty());
            match spec_clauses(rest) {
                Ok(cs) => {
                    assert(clauses.deep_view() + Seq::<Seq<i32>>::empty() =~~= clauses.deep_view());
                },
                Err(_) => {},
            }
        }
        let cnf = CNF { num_variables: counts.0, num_clauses: counts.1, clauses };
        proof {
            assert(spec_clauses(rest) == Ok::<Seq<Seq<i32>>, ParseErrorView>(cnf.clauses.deep_view()));
        }
        Ok(cnf)
    }
}

/// Parsing is deterministic: two parses of the same input bytes agree.
pub proof fn lemma_parse_deterministic(
    input: Seq<u8>,
    r1: Result<CnfView, ParseErrorView>,
    r2: Result<CnfView, ParseErrorView>,
)
    requires
        r1 == spec_parse(input),
        r2 == spec_parse(input),
    ensures
        r1 == r2,
{
}

/// Inserting a blank or comment line anywhere leaves the significant lines
/// unchanged.
pub proof fn lemma_insert_skippable_significant(lines: Seq<Seq<u8>>, i: int, extra: Seq<u8>)
    requires
        0 <= i <= lines.len(),
        is_skippable(spec_trim(extra)),
    ensures
        significant_lines(lines.insert(i, extra)) == significant_lines(lines),
    decreases i,
{
    let grown = lines.insert(i, extra);
    if i == 0 {
        assert(grown.first() == extra);
        assert(grown.drop_first() =~= lines);
    } else {
        assert(grown.first() == lines.first());
        assert(grown.drop_first() =~= lines.drop_first().insert(i - 1, extra));
        lemma_insert_skippable_significant(lines.drop_first(), i - 1, extra);
    }
}

/// Inserting a blank or comment line anywhere leaves the parse unchanged.
pub proof fn lemma_insert_skippable_line(lines: Seq<Seq<u8>>, i: int, extra: Seq<u8>)
    requires
        0 <= i <= lines.len(),
        is_skippable(spec_trim(extra)),
    ensures
        spec_parse_lines(lines.insert(i, extra)) == spec_parse_lines(lines),
{
    lemma_insert_skippable_significant(lines, i, extra);
}

/// A whole blank or comment line — its text, then a line break — inserted
/// at any line start of the input leaves the parse unchanged.
pub proof fn lemma_insert_skippable_text(before: Seq<u8>, extra: Seq<u8>, after: Seq<u8>)
    requires
        before.len() == 0 || before.last() == 10,
        forall|i: int| 0 <= i < extra.len() ==> extra[i] != 10,
        is_skippable(spec_trim(extra)),
    ensures
        spec_parse(before + extra + seq![10u8] + after) == spec_parse(before + after),
{
    let nl = seq![10u8];
    let done = crate::text::split_fold(before, 10).0;
    crate::text::lemma_split_concat_at_boundary(before, after, 10);
    let grown = before + extra + nl;
    assert(grown.last() == 10);
    crate::text::lemma_split_concat_at_boundary(grown, after, 10);
    assert(before + extra + nl + after =~= grown + after);

    // The completed pieces of `before + extra + nl` are those of `before`
    // and then `extra` itself.
    crate::text::lemma_split_concat_at_boundary(before, extra + nl, 10);
    crate::text::lemma_split_fold_no_sep(extra, 10);
    crate::text::lemma_split_push_sep(extra, 10);
    assert(extra.push(10u8) =~= extra + nl);
    assert(spec_split(extra + nl, 10) == spec_split(extra, 10).push(Seq::empty()));
    assert(spec_split(extra, 10) =~= seq![extra]);
    assert(before + (extra + nl) =~= grown);
    assert(spec_split(grown, 10) == done + seq![extra].push(Seq::<u8>::empty()));
    let gf = crate::text::split_fold(grown, 10);
    assert(gf.0.push(gf.1) == done + seq![extra].push(Seq::<u8>::empty()));
    assert((done + seq![extra].push(Seq::<u8>::empty())).drop_last() =~= done + seq![extra]);
    assert(gf.0 =~= done + seq![extra]);

    let lines1 = spec_split(before + after, 10);
    let lines2 = spec_split(grown + after, 10);
    assert(lines1 == done + spec_split(after, 10));
    assert(lines2 == (done + seq![extra]) + spec_split(after, 10));
    assert(lines2 =~= lines1.insert(done.len() as int, extra));
    lemma_insert_skippable_line(lines1, done.len() as int, extra);
}

/// Two inputs with the same significant lines parse to the same result.
pub proof fn lemma_same_significant_same_parse(a: Seq<u8>, b: Seq<u8>)
    requires
        significant_lines(spec_split(a, 10)) == significant_lines(spec_split(b, 10)),
    ensures
        spec_parse(a) == spec_parse(b),
{
}

} // verus!
