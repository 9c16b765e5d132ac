//! Byte-level text primitives: line and token splitting, numeric-token
//! recognition, and unsigned-integer parsing. All operate on raw bytes,
//! with their meaning stated over `Seq<u8>`.

use vstd::prelude::*;

verus! {

/// Whitespace inside a line: space, horizontal tab, carriage return.
pub open spec fn is_ws(b: u8) -> bool {
    b == 32 || b == 9 || b == 13
}

/// ASCII decimal digit.
pub open spec fn is_digit(b: u8) -> bool {
    48 <= b && b <= 57
}

/// The separator used by `split_by`: newline for line splitting,
/// in-line whitespace for token splitting.
pub open spec fn is_sep(b: u8, ws: bool) -> bool {
    if ws {
        is_ws(b)
    } else {
        b == 10
    }
}

/// The views of a sequence of byte vectors.
pub open spec fn bytes_views(v: Seq<Vec<u8>>) -> Seq<Seq<u8>> {
    Seq::new(v.len(), |i: int| v[i]@)
}

/// Split `s` at every separator byte, keeping empty parts: `n` separators
/// yield `n + 1` parts, in order, separators removed.
pub open spec fn split_by(s: Seq<u8>, ws: bool) -> Seq<Seq<u8>>
    decreases s.len(),
{
    if s.len() == 0 {
        seq![Seq::<u8>::empty()]
    } else {
        let parts = split_by(s.drop_last(), ws);
        if is_sep(s.last(), ws) {
            parts.push(Seq::empty())
        } else {
            parts.update(parts.len() - 1, parts.last().push(s.last()))
        }
    }
}

pub fn split_by_exec(s: &[u8], ws: bool) -> (r: Vec<Vec<u8>>)
    ensures
        bytes_views(r@) == split_by(s@, ws),
        r@.len() >= 1,
{
    let mut parts: Vec<Vec<u8>> = Vec::new();
    parts.push(Vec::new());
    assert(bytes_views(parts@) =~= split_by(s@.subrange(0, 0), ws)) by {
        assert(s@.subrange(0, 0) =~= Seq::<u8>::empty());
        assert(bytes_views(parts@) =~= seq![Seq::<u8>::empty()]);
    }
    let n = s.len();
    let mut i: usize = 0;
    while i < n
        invariant
            n == s@.len(),
            i <= n,
            parts@.len() >= 1,
            bytes_views(parts@) == split_by(s@.subrange(0, i as int), ws),
        decreases n - i,
    {
        let b = s[i];
        let ghost pre = s@.subrange(0, i as int);
        let ghost cur = s@.subrange(0, i + 1);
        proof {
            assert(cur.drop_last() =~= pre);
            assert(cur.last() == s@[i as int]);
        }
        let sep = if ws {
            b == 32 || b == 9 || b == 13
        } else {
            b == 10
        };
        if sep {
            parts.push(Vec::new());
            assert(bytes_views(parts@) =~= split_by(cur, ws));
        } else {
            let mut last = parts.pop().unwrap();
            last.push(b);
            parts.push(last);
            assert(bytes_views(parts@) =~= split_by(cur, ws));
        }
        i = i + 1;
    }
    assert(s@.subrange(0, n as int) =~= s@);
    parts
}

/// The non-empty parts, in order.
pub open spec fn nonempty_parts(ps: Seq<Seq<u8>>) -> Seq<Seq<u8>>
    decreases ps.len(),
{
    if ps.len() == 0 {
        Seq::empty()
    } else {
        let rest = nonempty_parts(ps.drop_last());
        if ps.last().len() > 0 {
            rest.push(ps.last())
        } else {
            rest
        }
    }
}

/// The whitespace-separated tokens of one line.
pub open spec fn tokens_of(l: Seq<u8>) -> Seq<Seq<u8>> {
    nonempty_parts(split_by(l, true))
}

pub fn tokens_exec(l: &[u8]) -> (r: Vec<Vec<u8>>)
    ensures
        bytes_views(r@) == tokens_of(l@),
{
    let parts = split_by_exec(l, true);
    let mut toks: Vec<Vec<u8>> = Vec::new();
    assert(bytes_views(toks@) =~= nonempty_parts(bytes_views(parts@).subrange(0, 0)));
    let n = parts.len();
    let mut i: usize = 0;
    while i < n
        invariant
            n == parts@.len(),
            i <= n,
            bytes_views(toks@) == nonempty_parts(bytes_views(parts@).subrange(0, i as int)),
        decreases n - i,
    {
        let ghost pv = bytes_views(parts@);
        proof {
            assert(pv.subrange(0, i + 1).drop_last() =~= pv.subrange(0, i as int));
            assert(pv.subrange(0, i + 1).last() == pv[i as int]);
        }
        if parts[i].len() > 0 {
            let mut t: Vec<u8> = Vec::new();
            let m = parts[i].len();
            let mut j: usize = 0;
            while j < m
                invariant
                    i < parts@.len(),
                    m == parts@[i as int]@.len(),
                    j <= m,
                    t@ == parts@[i as int]@.subrange(0, j as int),
                decreases m - j,
            {
                t.push(parts[i][j]);
                assert(t@ =~= parts@[i as int]@.subrange(0, j + 1));
                j = j + 1;
            }
            assert(t@ =~= parts@[i as int]@);
            toks.push(t);
        }
        assert(bytes_views(toks@) =~= nonempty_parts(bytes_views(parts@).subrange(0, i + 1)));
        i = i + 1;
    }
    assert(bytes_views(parts@).subrange(0, n as int) =~= bytes_views(parts@));
    toks
}

/// Index of the first occurrence of `b` in `s`, or `s.len()` if absent.
pub open spec fn spec_find_byte(s: Seq<u8>, b: u8) -> int
    decreases s.len(),
{
    if s.len() == 0 {
        0
    } else if s[0] == b {
        0
    } else {
        1 + spec_find_byte(s.drop_first(), b)
    }
}

pub fn find_byte(s: &[u8], b: u8) -> (r: usize)
    ensures
        r as int == spec_find_byte(s@, b),
        r <= s@.len(),
    decreases s@.len(),
{
    if s.len() == 0 {
        0
    } else if s[0] == b {
        0
    } else {
        let rest = vstd::slice::slice_subrange(s, 1, s.len());
        assert(rest@ =~= s@.drop_first());
        1 + find_byte(rest, b)
    }
}

/// An exponent mark in a numeric token: lower- or upper-case letter e.
pub open spec fn is_exp_mark(b: u8) -> bool {
    b == 101 || b == 69
}

/// Index of the first exponent mark in `s`, or `s.len()` if absent.
pub open spec fn spec_find_exp(s: Seq<u8>) -> int
    decreases s.len(),
{
    if s.len() == 0 {
        0
    } else if is_exp_mark(s[0]) {
        0
    } else {
        1 + spec_find_exp(s.drop_first())
    }
}

pub fn find_exp(s: &[u8]) -> (r: usize)
    ensures
        r as int == spec_find_exp(s@),
        r <= s@.len(),
    decreases s@.len(),
{
    if s.len() == 0 {
        0
    } else if s[0] == 101 || s[0] == 69 {
        0
    } else {
        let rest = vstd::slice::slice_subrange(s, 1, s.len());
        assert(rest@ =~= s@.drop_first());
        1 + find_exp(rest)
    }
}

pub open spec fn all_digits(s: Seq<u8>) -> bool {
    forall|i: int| 0 <= i < s.len() ==> is_digit(#[trigger] s[i])
}

pub fn check_all_digits(s: &[u8]) -> (r: bool)
    ensures
        r == all_digits(s@),
{
    let n = s.len();
    let mut i: usize = 0;
    while i < n
        invariant
            n == s@.len(),
            i <= n,
            forall|j: int| 0 <= j < i ==> is_digit(#[trigger] s@[j]),
        decreases n - i,
    {
        if !(48 <= s[i] && s[i] <= 57) {
            return false;
        }
        i = i + 1;
    }
    true
}

/// A sign byte: plus or minus.
pub open spec fn is_sign(b: u8) -> bool {
    b == 43 || b == 45
}

/// An optionally signed run of one or more digits.
pub open spec fn is_int_token(s: Seq<u8>) -> bool {
    let body = if s.len() > 0 && is_sign(s[0]) {
        s.drop_first()
    } else {
        s
    };
    body.len() > 0 && all_digits(body)
}

/// An optionally signed mantissa: digits with at most one decimal point,
/// and at least one digit overall.
pub open spec fn is_mantissa(s: Seq<u8>) -> bool {
    let body = if s.len() > 0 && is_sign(s[0]) {
        s.drop_first()
    } else {
        s
    };
    let d = spec_find_byte(body, 46);
    if d < body.len() {
        body.len() >= 2 && all_digits(body.subrange(0, d)) && all_digits(
            body.subrange(d + 1, body.len() as int),
        )
    } else {
        body.len() >= 1 && all_digits(body)
    }
}

/// A decimal numeric token: a mantissa, optionally followed by an exponent
/// mark and a signed integer exponent.
pub open spec fn is_num_token(s: Seq<u8>) -> bool {
    let e = spec_find_exp(s);
    if e < s.len() {
        is_mantissa(s.subrange(0, e)) && is_int_token(s.subrange(e + 1, s.len() as int))
    } else {
        is_mantissa(s)
    }
}

fn check_int_token(s: &[u8]) -> (r: bool)
    ensures
        r == is_int_token(s@),
{
    let body = if s.len() > 0 && (s[0] == 43 || s[0] == 45) {
        let t = vstd::slice::slice_subrange(s, 1, s.len());
        assert(t@ =~= s@.drop_first());
        t
    } else {
        s
    };
    body.len() > 0 && check_all_digits(body)
}

fn check_mantissa(s: &[u8]) -> (r: bool)
    ensures
        r == is_mantissa(s@),
{
    let body = if s.len() > 0 && (s[0] == 43 || s[0] == 45) {
        let t = vstd::slice::slice_subrange(s, 1, s.len());
        assert(t@ =~= s@.drop_first());
        t
    } else {
        s
    };
    let d = find_byte(body, 46);
    if d < body.len() {
        body.len() >= 2 && check_all_digits(vstd::slice::slice_subrange(body, 0, d))
            && check_all_digits(vstd::slice::slice_subrange(body, d + 1, body.len()))
    } else {
        body.len() >= 1 && check_all_digits(body)
    }
}

pub fn check_num_token(s: &[u8]) -> (r: bool)
    ensures
        r == is_num_token(s@),
{
    let e = find_exp(s);
    if e < s.len() {
        check_mantissa(vstd::slice::slice_subrange(s, 0, e)) && check_int_token(
            vstd::slice::slice_subrange(s, e + 1, s.len()),
        )
    } else {
        check_mantissa(s)
    }
}

/// The value of a digit string read as a base-ten number.
pub open spec fn uint_val(s: Seq<u8>) -> nat
    decreases s.len(),
{
    if s.len() == 0 {
        0
    } else {
        (uint_val(s.drop_last()) * 10 + (s.last() - 48)) as nat
    }
}

pub open spec fn pow10(n: nat) -> nat
    decreases n,
{
    if n == 0 {
        1
    } else {
        10 * pow10((n - 1) as nat)
    }
}

/// An unsigned-integer token the library accepts as an identifier or level:
/// all digits, one to nineteen of them, so that its value fits a `u64`.
pub open spec fn is_uint_token(s: Seq<u8>) -> bool {
    0 < s.len() <= 19 && all_digits(s)
}

proof fn lemma_pow10_mono(a: nat, b: nat)
    requires
        a <= b,
    ensures
        pow10(a) <= pow10(b),
    decreases b,
{
    if a < b {
        lemma_pow10_mono(a, (b - 1) as nat);
        assert(pow10(b) == 10 * pow10((b - 1) as nat));
    }
}

proof fn lemma_uint_val_bound(s: Seq<u8>)
    requires
        all_digits(s),
    ensures
        uint_val(s) < pow10(s.len()),
    decreases s.len(),
{
    if s.len() > 0 {
        assert(all_digits(s.drop_last())) by {
            assert(forall|i: int|
                0 <= i < s.len() - 1 ==> #[trigger] s.drop_last()[i] == s[i]);
        }
        lemma_uint_val_bound(s.drop_last());
        assert(s.last() - 48 <= 9);
    }
}

/// Parse a digit token to its value. Returns a value exactly when the token
/// is an unsigned-integer token the library accepts.
pub fn parse_uint(s: &[u8]) -> (r: Option<u64>)
    ensures
        match r {
            Some(v) => is_uint_token(s@) && v as nat == uint_val(s@),
            None => !is_uint_token(s@),
        },
{
    let n = s.len();
    if n == 0 || n > 19 || !check_all_digits(s) {
        return None;
    }
    proof {
        lemma_uint_val_bound(s@);
        lemma_pow10_mono(s@.len() as nat, 19);
        assert(pow10(19) == 10000000000000000000) by {
            reveal_with_fuel(pow10, 20);
        }
    }
    let mut acc: u64 = 0;
    let mut i: usize = 0;
    while i < n
        invariant
            n == s@.len(),
            n <= 19,
            i <= n,
            all_digits(s@),
            acc as nat == uint_val(s@.subrange(0, i as int)),
            acc < pow10(i as nat),
            pow10(n as nat) <= pow10(19),
            pow10(19) == 10000000000000000000,
        decreases n - i,
    {
        proof {
            lemma_pow10_mono(i as nat, (n - 1) as nat);
            assert(pow10((i + 1) as nat) == 10 * pow10(i as nat));
            assert(pow10(n as nat) == 10 * pow10((n - 1) as nat));
            assert(s@.subrange(0, i + 1).drop_last() =~= s@.subrange(0, i as int));
            assert(s@.subrange(0, i + 1).last() == s@[i as int]);
        }
        let d = s[i];
        acc = acc * 10 + ((d - 48) as u64);
        i = i + 1;
    }
    assert(s@.subrange(0, n as int) =~= s@);
    Some(acc)
}

} // verus!
