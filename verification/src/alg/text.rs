//! Byte-level text primitives for the line-oriented DIMACS reader: splitting
//! into lines, whitespace tokenizing, and decimal integer parsing.

use vstd::prelude::*;

verus! {

/// ASCII whitespace, as the format's separators.
pub open spec fn is_space(b: u8) -> bool {
    b == 32 || (9 <= b && b <= 13)
}

/// ASCII decimal digit.
pub open spec fn is_digit(b: u8) -> bool {
    48 <= b && b <= 57
}

/// Index of the first byte satisfying `f`, or `s.len()` if none does.
pub open spec fn find_first(s: Seq<u8>, f: spec_fn(u8) -> bool) -> int
    decreases s.len(),
{
    if s.len() == 0 {
        0
    } else if f(s[0]) {
        0
    } else {
        1 + find_first(s.drop_first(), f)
    }
}

proof fn lemma_find_first(s: Seq<u8>, f: spec_fn(u8) -> bool)
    ensures
        0 <= find_first(s, f) <= s.len(),
        forall|j: int| 0 <= j < find_first(s, f) ==> !f(s[j]),
        find_first(s, f) < s.len() ==> f(s[find_first(s, f)]),
    decreases s.len(),
{
    if s.len() > 0 && !f(s[0]) {
        lemma_find_first(s.drop_first(), f);
        let n = find_first(s, f);
        assert forall|j: int| 0 <= j < n implies !f(s[j]) by {
            if j > 0 {
                assert(s.drop_first()[j - 1] == s[j]);
            }
        }
        if n < s.len() {
            assert(s.drop_first()[n - 1] == s[n]);
        }
    }
}

/// `find_first` is pinned down by its characteristic properties.
pub(crate) proof fn lemma_find_first_is(s: Seq<u8>, f: spec_fn(u8) -> bool, n: int)
    requires
        0 <= n <= s.len(),
        forall|j: int| 0 <= j < n ==> !f(s[j]),
        n < s.len() ==> f(s[n]),
    ensures
        find_first(s, f) == n,
    decreases s.len(),
{
    if s.len() > 0 && !f(s[0]) {
        assert forall|j: int| 0 <= j < n - 1 implies !f(s.drop_first()[j]) by {
            assert(s.drop_first()[j] == s[j + 1]);
        }
        if n - 1 < s.drop_first().len() {
            assert(s.drop_first()[n - 1] == s[n]);
        }
        lemma_find_first_is(s.drop_first(), f, n - 1);
    }
}

/// The lines of a byte text, split at newline bytes; a trailing newline does
/// not open a further empty line, and an empty text has no lines.
pub open spec fn spec_lines(t: Seq<u8>) -> Seq<Seq<u8>>
    decreases t.len(),
    via spec_lines_decreases
{
    if t.len() == 0 {
        Seq::empty()
    } else {
        let n = find_first(t, |b: u8| b == 10);
        if n == t.len() {
            seq![t]
        } else {
            seq![t.take(n)] + spec_lines(t.skip(n + 1))
        }
    }
}

#[via_fn]
proof fn spec_lines_decreases(t: Seq<u8>) {
    if t.len() > 0 {
        lemma_find_first(t, |b: u8| b == 10);
    }
}

/// The whitespace-separated tokens of a line, in order.
pub open spec fn spec_tokens(l: Seq<u8>) -> Seq<Seq<u8>>
    decreases l.len(),
    via spec_tokens_decreases
{
    if l.len() == 0 {
        Seq::empty()
    } else if is_space(l[0]) {
        spec_tokens(l.drop_first())
    } else {
        let n = find_first(l, |b: u8| is_space(b));
        if n == l.len() {
            seq![l]
        } else {
            seq![l.take(n)] + spec_tokens(l.skip(n))
        }
    }
}

#[via_fn]
proof fn spec_tokens_decreases(l: Seq<u8>) {
    if l.len() > 0 && !is_space(l[0]) {
        lemma_find_first(l, |b: u8| is_space(b));
    }
}

/// The first byte of the line that is not whitespace, if any.
pub open spec fn first_nonspace(l: Seq<u8>) -> Option<u8> {
    let n = find_first(l, |b: u8| !is_space(b));
    if n < l.len() {
        Some(l[n])
    } else {
        None
    }
}

/// Finds the first byte of the line that is not whitespace, if any.
pub(crate) fn first_nonspace_byte(line: &[u8]) -> (r: Option<u8>)
    ensures
        r == first_nonspace(line@),
{
    let n = line.len();
    let mut k: usize = 0;
    while k < n && is_space_byte(line[k])
        invariant
            n == line@.len(),
            0 <= k <= n,
            forall|j: int| 0 <= j < k ==> is_space(#[trigger] line@[j]),
        decreases n - k,
    {
        k = k + 1;
    }
    if k < n {
        proof {
            lemma_find_first_is(line@, |b: u8| !is_space(b), k as int);
        }
        Some(line[k])
    } else {
        proof {
            lemma_find_first_is(line@, |b: u8| !is_space(b), n as int);
        }
        None
    }
}

/// The value of a digit-only byte string read as a decimal number.
pub open spec fn digits_val(s: Seq<u8>) -> nat
    decreases s.len(),
{
    if s.len() == 0 {
        0nat
    } else {
        digits_val(s.drop_last()) * 10 + (s.last() - 48) as nat
    }
}

pub open spec fn all_digits(s: Seq<u8>) -> bool {
    forall|i: int| 0 <= i < s.len() ==> is_digit(#[trigger] s[i])
}

/// A longer digit prefix never denotes a smaller value.
proof fn lemma_digits_val_prefix_le(s: Seq<u8>, i: int)
    requires
        0 <= i <= s.len(),
        all_digits(s),
    ensures
        digits_val(s.take(i)) <= digits_val(s),
    decreases s.len() - i,
{
    if i < s.len() {
        assert(s.take(i + 1).drop_last() =~= s.take(i));
        assert(s.take(i + 1).last() == s[i]);
        assert(digits_val(s.take(i + 1)) == digits_val(s.take(i)) * 10 + (s[i] - 48) as nat);
        assert(digits_val(s.take(i)) <= digits_val(s.take(i)) * 10);
        lemma_digits_val_prefix_le(s, i + 1);
    } else {
        assert(s.take(i) =~= s);
    }
}

/// What `u64` text parsing yields: an optional plus sign, then only digits,
/// and a value that fits.
pub open spec fn spec_parse_u64(tok: Seq<u8>) -> Option<u64> {
    let body = if tok.len() > 0 && tok[0] == 43 {
        tok.drop_first()
    } else {
        tok
    };
    if body.len() > 0 && all_digits(body) && digits_val(body) <= u64::MAX {
        Some(digits_val(body) as u64)
    } else {
        None
    }
}

/// What `i64` text parsing yields: an optional sign, then only digits, and a
/// value within the type's range.
pub open spec fn spec_parse_i64(tok: Seq<u8>) -> Option<i64> {
    if tok.len() > 0 && tok[0] == 45 {
        let body = tok.drop_first();
        if body.len() > 0 && all_digits(body) && digits_val(body) <= 0x8000000000000000 {
            Some((-(digits_val(body) as int)) as i64)
        } else {
            None
        }
    } else {
        let body = if tok.len() > 0 && tok[0] == 43 {
            tok.drop_first()
        } else {
            tok
        };
        if body.len() > 0 && all_digits(body) && digits_val(body) <= i64::MAX {
            Some(digits_val(body) as i64)
        } else {
            None
        }
    }
}

/// Splits a byte text into its lines.
pub(crate) fn split_lines(text: &[u8]) -> (r: Vec<Vec<u8>>)
    ensures
        r@.map_values(|l: Vec<u8>| l@) == spec_lines(text@),
{
    let n = text.len();
    let mut lines: Vec<Vec<u8>> = Vec::new();
    let mut start: usize = 0;
    let mut i: usize = 0;
    proof {
        assert(text@.skip(0) =~= text@);
        assert(lines@.map_values(|l: Vec<u8>| l@) + spec_lines(text@) =~= spec_lines(text@));
    }
    while i < n
        invariant
            n == text@.len(),
            0 <= start <= i <= n,
            forall|j: int| start <= j < i ==> text@[j] != 10,
            spec_lines(text@) == lines@.map_values(|l: Vec<u8>| l@) + spec_lines(
                text@.skip(start as int),
            ),
        decreases n - i,
    {
        if text[i] == 10 {
            let line = slice_to_vec(text, start, i);
            proof {
                let rest = text@.skip(start as int);
                assert forall|j: int| 0 <= j < i - start implies !(rest[j] == 10) by {
                    assert(rest[j] == text@[start + j]);
                }
                assert(rest[i - start] == text@[i as int]);
                lemma_find_first_is(rest, |b: u8| b == 10, i - start);
                assert(rest.take(i - start) =~= text@.subrange(start as int, i as int));
                assert(rest.skip(i - start + 1) =~= text@.skip(i + 1));
                assert((lines@.map_values(|l: Vec<u8>| l@) + seq![line@]) + spec_lines(
                    text@.skip(i + 1),
                ) =~= lines@.map_values(|l: Vec<u8>| l@) + spec_lines(rest));
                assert((lines@ + seq![line]).map_values(|l: Vec<u8>| l@) =~= lines@.map_values(
                    |l: Vec<u8>| l@,
                ) + seq![line@]);
            }
            lines.push(line);
            start = i + 1;
        }
        i = i + 1;
    }
    if start < n {
        let line = slice_to_vec(text, start, n);
        proof {
            let rest = text@.skip(start as int);
            assert forall|j: int| 0 <= j < rest.len() implies !(rest[j] == 10) by {
                assert(rest[j] == text@[start + j]);
            }
            lemma_find_first_is(rest, |b: u8| b == 10, rest.len() as int);
            assert(rest =~= text@.subrange(start as int, n as int));
            assert((lines@ + seq![line]).map_values(|l: Vec<u8>| l@) =~= lines@.map_values(
                |l: Vec<u8>| l@,
            ) + seq![line@]);
        }
        lines.push(line);
    } else {
        proof {
            assert(text@.skip(start as int) =~= Seq::<u8>::empty());
        }
    }
    lines
}

/// Copies `s[from..to]` into a fresh vector.
fn slice_to_vec(s: &[u8], from: usize, to: usize) -> (r: Vec<u8>)
    requires
        0 <= from <= to <= s@.len(),
    ensures
        r@ == s@.subrange(from as int, to as int),
{
    let mut out: Vec<u8> = Vec::new();
    let mut i: usize = from;
    while i < to
        invariant
            from <= i <= to <= s@.len(),
            out@ == s@.subrange(from as int, i as int),
        decreases to - i,
    {
        out.push(s[i]);
        proof {
            assert(s@.subrange(from as int, i + 1) =~= s@.subrange(from as int, i as int).push(
                s@[i as int],
            ));
        }
        i = i + 1;
    }
    out
}

/// Splits a line into its whitespace-separated tokens.
pub(crate) fn tokenize(line: &[u8]) -> (r: Vec<Vec<u8>>)
    ensures
        r@.map_values(|t: Vec<u8>| t@) == spec_tokens(line@),
{
    let n = line.len();
    let mut toks: Vec<Vec<u8>> = Vec::new();
    let mut i: usize = 0;
    proof {
        assert(line@.skip(0) =~= line@);
        assert(toks@.map_values(|t: Vec<u8>| t@) + spec_tokens(line@) =~= spec_tokens(line@));
    }
    while i < n
        invariant
            n == line@.len(),
            0 <= i <= n,
            spec_tokens(line@) == toks@.map_values(|t: Vec<u8>| t@) + spec_tokens(
                line@.skip(i as int),
            ),
        decreases n - i,
    {
        if is_space_byte(line[i]) {
            proof {
                assert(line@.skip(i as int).drop_first() =~= line@.skip(i + 1));
            }
            i = i + 1;
        } else {
            let mut j: usize = i;
            while j < n && !is_space_byte(line[j])
                invariant
                    n == line@.len(),
                    i <= j <= n,
                    forall|k: int| i <= k < j ==> !is_space(#[trigger] line@[k]),
                decreases n - j,
            {
                j = j + 1;
            }
            let tok = slice_to_vec(line, i, j);
            proof {
                let rest = line@.skip(i as int);
                assert forall|k: int| 0 <= k < j - i implies !is_space(rest[k]) by {
                    assert(rest[k] == line@[i + k]);
                }
                if j < n {
                    assert(rest[j - i] == line@[j as int]);
                }
                lemma_find_first_is(rest, |b: u8| is_space(b), j - i);
                assert(rest.take(j - i) =~= line@.subrange(i as int, j as int));
                if j < n {
                    assert(rest.skip(j - i) =~= line@.skip(j as int));
                }
                assert((toks@ + seq![tok]).map_values(|t: Vec<u8>| t@) =~= toks@.map_values(
                    |t: Vec<u8>| t@,
                ) + seq![tok@]);
                if j == n {
                    assert(rest =~= line@.subrange(i as int, j as int));
                    assert(line@.skip(j as int) =~= Seq::<u8>::empty());
                }
            }
            toks.push(tok);
            i = j;
        }
    }
    proof {
        assert(line@.skip(n as int) =~= Seq::<u8>::empty());
    }
    toks
}

fn is_space_byte(b: u8) -> (r: bool)
    ensures
        r == is_space(b),
{
    b == 32 || (9 <= b && b <= 13)
}

/// Reads `s[from..]` as an unsigned decimal number: `None` on a non-digit,
/// an empty range, or overflow of `u64`.
fn parse_digits(s: &[u8], from: usize) -> (r: Option<u64>)
    requires
        0 <= from <= s@.len(),
    ensures
        ({
            let body = s@.skip(from as int);
            if body.len() > 0 && all_digits(body) && digits_val(body) <= u64::MAX {
                r == Some(digits_val(body) as u64)
            } else {
                r is None
            }
        }),
{
    let ghost body = s@.skip(from as int);
    let n = s.len();
    if from == n {
        return None;
    }
    let mut acc: u64 = 0;
    let mut i: usize = from;
    while i < n
        invariant
            body == s@.skip(from as int),
            0 <= from <= i <= n,
            n == s@.len(),
            from < n,
            all_digits(body.take(i - from)),
            acc == digits_val(body.take(i - from)),
        decreases n - i,
    {
        let b = s[i];
        if b < 48 || b > 57 {
            proof {
                assert(body[i - from] == s@[i as int]);
            }
            return None;
        }
        let d: u64 = (b - 48) as u64;
        proof {
            assert(body.take(i - from + 1).drop_last() =~= body.take(i - from));
            assert(body.take(i - from + 1).last() == s@[i as int]);
        }
        if acc > (u64::MAX - d) / 10 {
            proof {
                assert(digits_val(body.take(i - from + 1)) > u64::MAX);
                if all_digits(body) && digits_val(body) <= u64::MAX {
                    lemma_digits_val_prefix_le(body, i - from + 1);
                }
            }
            return None;
        }
        acc = acc * 10 + d;
        i = i + 1;
    }
    proof {
        assert(body.take(n - from) =~= body);
    }
    Some(acc)
}

/// Reads a whole token as a `u64`, as decimal text parsing does.
pub(crate) fn parse_u64(tok: &[u8]) -> (r: Option<u64>)
    ensures
        r == spec_parse_u64(tok@),
{
    if tok.len() > 0 && tok[0] == 43 {
        proof {
            assert(tok@.skip(1) =~= tok@.drop_first());
        }
        parse_digits(tok, 1)
    } else {
        proof {
            assert(tok@.skip(0) =~= tok@);
        }
        parse_digits(tok, 0)
    }
}

/// Reads a whole token as an `i64`, as decimal text parsing does.
pub(crate) fn parse_i64(tok: &[u8]) -> (r: Option<i64>)
    ensures
        r == spec_parse_i64(tok@),
{
    if tok.len() > 0 && tok[0] == 45 {
        proof {
            assert(tok@.skip(1) =~= tok@.drop_first());
        }
        match parse_digits(tok, 1) {
            Some(mag) => {
                if mag <= i64::MAX as u64 {
                    Some(-(mag as i64))
                } else if mag == 0x8000000000000000u64 {
                    Some(i64::MIN)
                } else {
                    None
                }
            },
            None => None,
        }
    } else if tok.len() > 0 && tok[0] == 43 {
        proof {
            assert(tok@.skip(1) =~= tok@.drop_first());
        }
        match parse_digits(tok, 1) {
            Some(mag) => {
                if mag <= i64::MAX as u64 {
                    Some(mag as i64)
                } else {
                    None
                }
            },
            None => None,
        }
    } else {
        proof {
            assert(tok@.skip(0) =~= tok@);
        }
        match parse_digits(tok, 0) {
            Some(mag) => {
                if mag <= i64::MAX as u64 {
                    Some(mag as i64)
                } else {
                    None
                }
            },
            None => None,
        }
    }
}

} // verus!
