//! Line- and token-oriented byte utilities: splitting on a separator,
//! whitespace trimming, and decimal integer tokens.

use vstd::prelude::*;

verus! {

/// ASCII whitespace, as trimmed from the ends of a line.
pub open spec fn is_ws(b: u8) -> bool {
    b == 32 || b == 9 || b == 10 || b == 11 || b == 12 || b == 13
}

/// Left fold of a separator split: the completed pieces so far, and the
/// piece under construction.
pub open spec fn split_fold(s: Seq<u8>, sep: u8) -> (Seq<Seq<u8>>, Seq<u8>)
    decreases s.len(),
{
    if s.len() == 0 {
        (Seq::empty(), Seq::empty())
    } else {
        let prev = split_fold(s.drop_last(), sep);
        if s.last() == sep {
            (prev.0.push(prev.1), Seq::empty())
        } else {
            (prev.0, prev.1.push(s.last()))
        }
    }
}

/// The pieces of `s` between occurrences of `sep`, in order. Always has at
/// least one element; separators at the ends yield empty pieces.
pub open spec fn spec_split(s: Seq<u8>, sep: u8) -> Seq<Seq<u8>> {
    split_fold(s, sep).0.push(split_fold(s, sep).1)
}

/// `s` without its leading whitespace.
pub open spec fn trim_front(s: Seq<u8>) -> Seq<u8>
    decreases s.len(),
{
    if s.len() > 0 && is_ws(s.first()) {
        trim_front(s.drop_first())
    } else {
        s
    }
}

/// `s` without its trailing whitespace.
pub open spec fn trim_back(s: Seq<u8>) -> Seq<u8>
    decreases s.len(),
{
    if s.len() > 0 && is_ws(s.last()) {
        trim_back(s.drop_last())
    } else {
        s
    }
}

/// `s` without whitespace at either end.
pub open spec fn spec_trim(s: Seq<u8>) -> Seq<u8> {
    trim_back(trim_front(s))
}

pub open spec fn is_digit(b: u8) -> bool {
    48 <= b && b <= 57
}

pub open spec fn all_digits(t: Seq<u8>) -> bool {
    forall|i: int| 0 <= i < t.len() ==> is_digit(#[trigger] t[i])
}

/// The value of a run of decimal digits (most significant first).
pub open spec fn digits_val(t: Seq<u8>) -> int
    decreases t.len(),
{
    if t.len() == 0 {
        0
    } else {
        digits_val(t.drop_last()) * 10 + t.last() - 48
    }
}

/// The digit run of an unsigned decimal token: an optional leading `+` is
/// allowed, as `usize::from_str` allows it.
pub open spec fn unsigned_digits(t: Seq<u8>) -> Seq<u8> {
    if t.len() > 0 && t[0] == 43 {
        t.drop_first()
    } else {
        t
    }
}

/// Whether `t` is a decimal token that `usize::from_str` accepts.
pub open spec fn is_usize_token(t: Seq<u8>) -> bool {
    let d = unsigned_digits(t);
    d.len() > 0 && all_digits(d) && digits_val(d) <= usize::MAX
}

pub open spec fn usize_token_val(t: Seq<u8>) -> int {
    digits_val(unsigned_digits(t))
}

/// The digit run of a signed decimal token (optional leading `+` or `-`).
pub open spec fn signed_digits(t: Seq<u8>) -> Seq<u8> {
    if t.len() > 0 && (t[0] == 43 || t[0] == 45) {
        t.drop_first()
    } else {
        t
    }
}

pub open spec fn signed_sign(t: Seq<u8>) -> int {
    if t.len() > 0 && t[0] == 45 {
        -1
    } else {
        1
    }
}

/// Whether `t` is a decimal token that `i32::from_str` accepts.
pub open spec fn is_i32_token(t: Seq<u8>) -> bool {
    let d = signed_digits(t);
    d.len() > 0 && all_digits(d) && i32::MIN <= signed_sign(t) * digits_val(d) <= i32::MAX
}

pub open spec fn i32_token_val(t: Seq<u8>) -> int {
    signed_sign(t) * digits_val(signed_digits(t))
}

pub proof fn lemma_digits_val_nonneg(t: Seq<u8>)
    requires
        all_digits(t),
    ensures
        digits_val(t) >= 0,
    decreases t.len(),
{
    if t.len() > 0 {
        assert(all_digits(t.drop_last())) by {
            assert(forall|i: int| 0 <= i < t.len() - 1 ==> is_digit(#[trigger] t.drop_last()[i]));
        }
        lemma_digits_val_nonneg(t.drop_last());
    }
}

/// A digit run's value only grows as more digits are appended.
pub proof fn lemma_digits_val_take_le(t: Seq<u8>, m: int)
    requires
        all_digits(t),
        0 <= m <= t.len(),
    ensures
        digits_val(t.take(m)) <= digits_val(t),
    decreases t.len() - m,
{
    if m < t.len() {
        lemma_digits_val_take_le(t, m + 1);
        assert(t.take(m + 1).drop_last() =~= t.take(m));
        assert(all_digits(t.take(m))) by {
            assert(forall|i: int| 0 <= i < m ==> is_digit(#[trigger] t.take(m)[i]));
        }
        lemma_digits_val_nonneg(t.take(m));
        assert(t.take(m + 1).last() == t[m]);
        assert(digits_val(t.take(m + 1)) == digits_val(t.take(m)) * 10 + t[m] - 48);
        assert(digits_val(t.take(m)) * 10 >= digits_val(t.take(m)));
    } else {
        assert(t.take(m) =~= t);
    }
}

/// Appending the separator completes the piece under construction: the
/// pieces gain one empty piece at the end.
pub proof fn lemma_split_push_sep(s: Seq<u8>, sep: u8)
    ensures
        spec_split(s.push(sep), sep) == spec_split(s, sep).push(Seq::empty()),
{
    assert(s.push(sep).drop_last() =~= s);
    assert(spec_split(s.push(sep), sep) =~= spec_split(s, sep).push(Seq::empty()));
}

/// Appending any other byte extends the last piece.
pub proof fn lemma_split_push_other(s: Seq<u8>, b: u8, sep: u8)
    requires
        b != sep,
    ensures
        spec_split(s.push(b), sep) == spec_split(s, sep).drop_last().push(
            spec_split(s, sep).last().push(b),
        ),
{
    assert(s.push(b).drop_last() =~= s);
    assert(spec_split(s, sep).drop_last() =~= split_fold(s, sep).0);
    assert(spec_split(s.push(b), sep) =~= spec_split(s, sep).drop_last().push(
        spec_split(s, sep).last().push(b),
    ));
}

/// A text without the separator is one piece under construction.
pub proof fn lemma_split_fold_no_sep(s: Seq<u8>, sep: u8)
    requires
        forall|i: int| 0 <= i < s.len() ==> s[i] != sep,
    ensures
        split_fold(s, sep).0 == Seq::<Seq<u8>>::empty(),
        split_fold(s, sep).1 == s,
    decreases s.len(),
{
    if s.len() > 0 {
        lemma_split_fold_no_sep(s.drop_last(), sep);
        assert(s.drop_last().push(s.last()) =~= s);
    }
}

/// Splitting a concatenation at a piece boundary: where `u` is empty or
/// ends with the separator, the pieces of `u + v` are `u`'s completed
/// pieces followed by `v`'s pieces.
pub proof fn lemma_split_concat_at_boundary(u: Seq<u8>, v: Seq<u8>, sep: u8)
    requires
        u.len() == 0 || u.last() == sep,
    ensures
        spec_split(u + v, sep) == split_fold(u, sep).0 + spec_split(v, sep),
    decreases v.len(),
{
    if v.len() == 0 {
        assert(u + v =~= u);
        assert(split_fold(u, sep).1 =~= Seq::<u8>::empty());
        assert(split_fold(u, sep).0 + spec_split(v, sep) =~~= spec_split(u, sep));
    } else {
        let w = v.drop_last();
        let b = v.last();
        lemma_split_concat_at_boundary(u, w, sep);
        assert((u + w).push(b) =~= u + v);
        assert(w.push(b) =~= v);
        if b == sep {
            lemma_split_push_sep(u + w, sep);
            lemma_split_push_sep(w, sep);
            assert(split_fold(u, sep).0 + spec_split(w, sep).push(Seq::empty()) =~= (split_fold(
                u,
                sep,
            ).0 + spec_split(w, sep)).push(Seq::empty()));
        } else {
            lemma_split_push_other(u + w, b, sep);
            lemma_split_push_other(w, b, sep);
            let x = spec_split(w, sep);
            assert(x.len() >= 1);
            assert((split_fold(u, sep).0 + x).drop_last() =~= split_fold(u, sep).0
                + x.drop_last());
            assert((split_fold(u, sep).0 + x).last() == x.last());
            assert(split_fold(u, sep).0 + x.drop_last().push(x.last().push(b)) =~= (split_fold(
                u,
                sep,
            ).0 + x.drop_last()).push(x.last().push(b)));
        }
    }
}

/// The deep view of a byte vector is its view.
pub broadcast proof fn lemma_bytes_deep_view(v: Vec<u8>)
    ensures
        #[trigger] v.deep_view() == v@,
{
    assert(v.deep_view() =~= v@);
}

fn is_ws_byte(b: u8) -> (r: bool)
    ensures
        r == is_ws(b),
{
    b == 32 || b == 9 || b == 10 || b == 11 || b == 12 || b == 13
}

/// The pieces of `s` between occurrences of `sep`, in order.
pub fn split_bytes(s: &[u8], sep: u8) -> (r: Vec<Vec<u8>>)
    ensures
        r.deep_view() == spec_split(s@, sep),
{
    let n = s.len();
    let mut done: Vec<Vec<u8>> = Vec::new();
    let mut cur: Vec<u8> = Vec::new();
    let mut i: usize = 0;
    while i < n
        invariant
            n == s@.len(),
            i <= n,
            done.deep_view() == split_fold(s@.take(i as int), sep).0,
            cur@ == split_fold(s@.take(i as int), sep).1,
        decreases n - i,
    {
        let ghost prefix = s@.take(i as int);
        let ghost next = s@.take(i + 1);
        proof {
            assert(next.drop_last() =~= prefix);
            assert(next.last() == s@[i as int]);
        }
        let b = s[i];
        if b == sep {
            let ghost old_done = done.deep_view();
            let ghost old_cur = cur@;
            done.push(cur);
            cur = Vec::new();
            proof {
                assert(done.deep_view() =~~= old_done.push(old_cur));
            }
        } else {
            cur.push(b);
        }
        i = i + 1;
    }
    proof {
        assert(s@.take(n as int) =~= s@);
        let ghost final_done = done.deep_view();
        let ghost final_cur = cur@;
        assert(final_done.push(final_cur) == spec_split(s@, sep));
    }
    done.push(cur);
    proof {
        assert(done.deep_view() =~~= spec_split(s@, sep));
    }
    done
}

/// `s` without whitespace at either end.
pub fn trim_bytes<'a>(s: &'a [u8]) -> (r: &'a [u8])
    ensures
        r@ == spec_trim(s@),
{
    let n = s.len();
    let mut i: usize = 0;
    proof {
        assert(s@.skip(0) =~= s@);
    }
    while i < n && is_ws_byte(s[i])
        invariant
            n == s@.len(),
            i <= n,
            trim_front(s@) == trim_front(s@.skip(i as int)),
        decreases n - i,
    {
        proof {
            let suf = s@.skip(i as int);
            assert(suf.first() == s@[i as int]);
            assert(suf.drop_first() =~= s@.skip(i + 1));
        }
        i = i + 1;
    }
    proof {
        if i < n {
            assert(!is_ws(s@.skip(i as int).first()));
        }
        assert(trim_front(s@) =~= s@.skip(i as int));
    }
    let mut j: usize = n;
    while j > i && is_ws_byte(s[j - 1])
        invariant
            n == s@.len(),
            i <= j <= n,
            trim_front(s@) == s@.skip(i as int),
            trim_back(s@.skip(i as int)) == trim_back(s@.subrange(i as int, j as int)),
        decreases j,
    {
        proof {
            let piece = s@.subrange(i as int, j as int);
            assert(piece.last() == s@[j - 1]);
            assert(piece.drop_last() =~= s@.subrange(i as int, j - 1));
        }
        j = j - 1;
    }
    proof {
        let piece = s@.subrange(i as int, j as int);
        if j > i {
            assert(piece.last() == s@[j - 1]);
            assert(!is_ws(piece.last()));
        }
        assert(trim_back(piece) =~= piece);
    }
    vstd::slice::slice_subrange(s, i, j)
}

/// Parses an unsigned decimal token exactly as `usize::from_str` does:
/// `None` on an empty digit run, a non-digit, or overflow.
pub fn parse_usize_token(t: &[u8]) -> (r: Option<usize>)
    ensures
        r is Some <==> is_usize_token(t@),
        r is Some ==> r->0 == usize_token_val(t@),
{
    let n = t.len();
    let mut i: usize = 0;
    if n > 0 && t[0] == 43 {
        i = 1;
    }
    let ghost d = unsigned_digits(t@);
    proof {
        assert(d =~= t@.skip(i as int));
    }
    if i == n {
        assert(d.len() == 0);
        return None;
    }
    let mut acc: usize = 0;
    let mut j: usize = i;
    while j < n
        invariant
            n == t@.len(),
            i <= j <= n,
            d == unsigned_digits(t@),
            d == t@.skip(i as int),
            d.len() == n - i,
            all_digits(d.take(j - i)),
            acc == digits_val(d.take(j - i)),
        decreases n - j,
    {
        let b = t[j];
        proof {
            assert(d[j - i] == t@[j as int]);
            assert(d.take(j - i + 1).drop_last() =~= d.take(j - i));
            assert(d.take(j - i + 1).last() == d[j - i]);
        }
        if !(48 <= b && b <= 57) {
            assert(!all_digits(d));
            return None;
        }
        proof {
            assert(all_digits(d.take(j - i + 1))) by {
                assert(forall|k: int|
                    0 <= k < j - i + 1 ==> is_digit(#[trigger] d.take(j - i + 1)[k]));
            }
        }
        let step = match acc.checked_mul(10) {
            Some(m) => m.checked_add((b - 48) as usize),
            None => None,
        };
        match step {
            Some(next) => {
                acc = next;
            },
            None => {
                proof {
                    lemma_digits_val_nonneg(d.take(j - i));
                    assert(digits_val(d.take(j - i + 1)) > usize::MAX);
                    if all_digits(d) {
                        lemma_digits_val_take_le(d, j - i + 1);
                        assert(digits_val(d) > usize::MAX);
                    }
                }
                return None;
            },
        }
        j = j + 1;
    }
    proof {
        assert(d.take(n - i) =~= d);
    }
    Some(acc)
}

/// Parses a signed decimal token exactly as `i32::from_str` does:
/// `None` on an empty digit run, a non-digit, or a value outside `i32`.
pub fn parse_i32_token(t: &[u8]) -> (r: Option<i32>)
    ensures
        r is Some <==> is_i32_token(t@),
        r is Some ==> r->0 == i32_token_val(t@),
{
    let n = t.len();
    let mut i: usize = 0;
    let mut neg = false;
    if n > 0 && t[0] == 43 {
        i = 1;
    } else if n > 0 && t[0] == 45 {
        i = 1;
        neg = true;
    }
    let ghost d = signed_digits(t@);
    proof {
        assert(d =~= t@.skip(i as int));
        assert(signed_sign(t@) == if neg { -1int } else { 1int });
    }
    if i == n {
        assert(d.len() == 0);
        return None;
    }
    let limit: u64 = if neg {
        2147483648
    } else {
        2147483647
    };
    let mut acc: u64 = 0;
    let mut j: usize = i;
    while j < n
        invariant
            n == t@.len(),
            i <= j <= n,
            d == signed_digits(t@),
            d == t@.skip(i as int),
            d.len() == n - i,
            signed_sign(t@) == if neg { -1int } else { 1int },
            limit == if neg { 2147483648int } else { 2147483647int },
            all_digits(d.take(j - i)),
            acc == digits_val(d.take(j - i)),
            acc <= limit,
        decreases n - j,
    {
        let b = t[j];
        proof {
            assert(d[j - i] == t@[j as int]);
            assert(d.take(j - i + 1).drop_last() =~= d.take(j - i));
            assert(d.take(j - i + 1).last() == d[j - i]);
        }
        if !(48 <= b && b <= 57) {
            assert(!all_digits(d));
            return None;
        }
        proof {
            assert(all_digits(d.take(j - i + 1))) by {
                assert(forall|k: int|
                    0 <= k < j - i + 1 ==> is_digit(#[trigger] d.take(j - i + 1)[k]));
            }
        }
        let next: u64 = acc * 10 + (b - 48) as u64;
        if next > limit {
            proof {
                lemma_digits_val_nonneg(d.take(j - i));
                assert(digits_val(d.take(j - i + 1)) > limit);
                if all_digits(d) {
                    lemma_digits_val_take_le(d, j - i + 1);
                    assert(digits_val(d) > limit);
                }
                assert(!is_i32_token(t@));
            }
            return None;
        }
        acc = next;
        j = j + 1;
    }
    proof {
        assert(d.take(n - i) =~= d);
        lemma_digits_val_nonneg(d);
    }
    if neg {
        if acc == 2147483648 {
            Some(i32::MIN)
        } else {
            Some(-((acc as i32)))
        }
    } else {
        Some(acc as i32)
    }
}

} // verus!
