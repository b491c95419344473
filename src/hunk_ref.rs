//! The text form of a hunk range, `@@ -s,l +s,l @@` with one-based starts,
//! and the hunk references that fzf hands back: a path, four newlines and a
//! range, parsed from the end.

use crate::udiff::DiffRange;
use vstd::prelude::*;

verus! {

pub open spec fn is_digit(c: u8) -> bool {
    48 <= c <= 57
}

/// The decimal digits of `n`, most significant first, without leading zeros.
pub open spec fn decimal(n: nat) -> Seq<u8>
    decreases n,
{
    if n < 10 {
        seq![(n + 48) as u8]
    } else {
        decimal(n / 10).push((n % 10 + 48) as u8)
    }
}

/// The number that a run of decimal digits spells.
pub open spec fn digits_value(d: Seq<u8>) -> nat
    decreases d.len(),
{
    if d.len() == 0 {
        0
    } else {
        digits_value(d.drop_last()) * 10 + (d.last() - 48) as nat
    }
}

/// The length of the run of digits that ends `s`.
pub open spec fn trailing_digits(s: Seq<u8>) -> nat
    decreases s.len(),
{
    if s.len() > 0 && is_digit(s.last()) {
        1 + trailing_digits(s.drop_last())
    } else {
        0
    }
}

pub open spec fn range_open() -> Seq<u8> {
    seq![64u8, 64u8, 32u8, 45u8]
}

pub open spec fn comma() -> Seq<u8> {
    seq![44u8]
}

pub open spec fn space_plus() -> Seq<u8> {
    seq![32u8, 43u8]
}

pub open spec fn range_close() -> Seq<u8> {
    seq![32u8, 64u8, 64u8]
}

/// Four newlines: what stands between the path and the range of a hunk
/// reference.
pub open spec fn separator() -> Seq<u8> {
    seq![10u8, 10u8, 10u8, 10u8]
}

/// `@@ -{before.0 + 1},{before.1} +{after.0 + 1},{after.1} @@`
pub open spec fn range_text(r: DiffRange) -> Seq<u8> {
    range_open() + decimal((r.before.0 + 1) as nat) + comma() + decimal(r.before.1 as nat) + space_plus()
        + decimal((r.after.0 + 1) as nat) + comma() + decimal(r.after.1 as nat) + range_close()
}

/// `s` ends with `suffix`, and before it stands a non-empty run of digits
/// whose value fits a `usize`: what is left in front of the digits, and the
/// value.
#[verifier::opaque]
pub open spec fn number_before(s: Seq<u8>, suffix: Seq<u8>) -> Option<(Seq<u8>, nat)> {
    if s.len() >= suffix.len() && s.subrange(s.len() - suffix.len(), s.len() as int) == suffix {
        let t = s.subrange(0, s.len() - suffix.len());
        let k = trailing_digits(t) as int;
        let v = digits_value(t.subrange(t.len() - k, t.len() as int));
        if k > 0 && v <= usize::MAX {
            Some((t.subrange(0, t.len() - k), v))
        } else {
            None
        }
    } else {
        None
    }
}

/// A hunk reference: the path, as bytes, and the range.
pub struct HunkRef {
    pub path: Vec<u8>,
    pub range: DiffRange,
}

/// What a hunk reference line says: `{path}\n\n\n\n@@ -A,B +C,D @@` with four
/// decimal numbers, `A` and `C` at least 1, read from the end of the line.
/// The range is zero-based: `(A - 1, B)` and `(C - 1, D)`.
pub open spec fn parse_hunk_ref(row: Seq<u8>) -> Option<(Seq<u8>, DiffRange)> {
    match number_before(row, range_close()) {
        None => None,
        Some((r4, after_len)) => match number_before(r4, comma()) {
            None => None,
            Some((r3, after_start)) => match number_before(r3, space_plus()) {
                None => None,
                Some((r2, before_len)) => match number_before(r2, comma()) {
                    None => None,
                    Some((r1, before_start)) => {
                        let lead = separator() + range_open();
                        if before_start >= 1 && after_start >= 1 && r1.len() >= lead.len()
                            && r1.subrange(r1.len() - lead.len(), r1.len() as int) == lead {
                            Some(
                                (
                                    r1.subrange(0, r1.len() - lead.len()),
                                    DiffRange {
                                        before: ((before_start - 1) as usize, before_len as usize),
                                        after: ((after_start - 1) as usize, after_len as usize),
                                    },
                                ),
                            )
                        } else {
                            None
                        }
                    },
                },
            },
        },
    }
}

/// Appends the bytes of `s` to `out`.
pub fn put_bytes(out: &mut Vec<u8>, s: &[u8])
    ensures
        final(out)@ == old(out)@ + s@,
{
    let ghost init = out@;
    let mut i: usize = 0;
    while i < s.len()
        invariant
            0 <= i <= s@.len(),
            init == old(out)@,
            out@ == init + s@.subrange(0, i as int),
        decreases s@.len() - i,
    {
        out.push(s[i]);
        i = i + 1;
        assert(out@ =~= init + s@.subrange(0, i as int));
    }
    assert(s@.subrange(0, i as int) =~= s@);
}

/// Appends the decimal digits of `n` to `out`.
pub fn put_decimal(out: &mut Vec<u8>, n: u128)
    ensures
        final(out)@ == old(out)@ + decimal(n as nat),
    decreases n,
{
    if n >= 10 {
        put_decimal(out, n / 10);
    }
    let d = (n % 10) as u8 + 48;
    out.push(d);
    assert(final(out)@ =~= old(out)@ + decimal(n as nat));
}

/// Appends the text form of `r` to `out`.
pub fn put_range(out: &mut Vec<u8>, r: &DiffRange)
    ensures
        final(out)@ == old(out)@ + range_text(*r),
{
    let ghost init = out@;
    out.push(64u8);
    out.push(64u8);
    out.push(32u8);
    out.push(45u8);
    put_decimal(out, r.before.0 as u128 + 1);
    out.push(44u8);
    put_decimal(out, r.before.1 as u128);
    out.push(32u8);
    out.push(43u8);
    put_decimal(out, r.after.0 as u128 + 1);
    out.push(44u8);
    put_decimal(out, r.after.1 as u128);
    out.push(32u8);
    out.push(64u8);
    out.push(64u8);
    assert(out@ =~= init + range_text(*r));
}

impl DiffRange {
    /// The text form `@@ -s,l +s,l @@`, with one-based starts.
    pub fn render(&self) -> (r: Vec<u8>)
        ensures
            r@ == range_text(*self),
    {
        let mut out: Vec<u8> = Vec::new();
        put_range(&mut out, self);
        assert(out@ =~= range_text(*self));
        out
    }
}

/// Dropping the last digit of a run lowers its value.
proof fn lemma_digits_value_prefix(d: Seq<u8>, j: int)
    requires
        0 <= j <= d.len(),
    ensures
        digits_value(d.subrange(0, j)) <= digits_value(d),
    decreases d.len(),
{
    if j < d.len() {
        assert(d.drop_last() =~= d.subrange(0, d.len() - 1));
        lemma_digits_value_prefix(d.drop_last(), j);
        assert(d.drop_last().subrange(0, j) =~= d.subrange(0, j));
    } else {
        assert(d.subrange(0, j) =~= d);
    }
}

/// Where the number in front of `suffix` starts, and its value, for the bytes
/// `row[..end]`.
fn number_before_exec(row: &[u8], end: usize, suffix: &[u8]) -> (r: Option<(usize, usize)>)
    requires
        end <= row@.len(),
    ensures
        r.is_some() ==> r.unwrap().0 <= end,
        match number_before(row@.subrange(0, end as int), suffix@) {
            None => r.is_none(),
            Some((rest, v)) => r.is_some() && rest == row@.subrange(0, r.unwrap().0 as int) && v
                == r.unwrap().1 as nat,
        },
{
    reveal(number_before);
    let ghost s = row@.subrange(0, end as int);
    if end < suffix.len() {
        return None;
    }
    let t_end = end - suffix.len();
    let mut i: usize = 0;
    while i < suffix.len()
        invariant
            t_end + suffix@.len() == end <= row@.len(),
            s == row@.subrange(0, end as int),
            0 <= i <= suffix@.len(),
            forall|j: int| 0 <= j < i ==> row@[t_end + j] == suffix@[j],
        decreases suffix@.len() - i,
    {
        if row[t_end + i] != suffix[i] {
            proof {
                assert(s.len() == end);
                let w = s.subrange(t_end as int, end as int);
                assert(w[i as int] == row@[t_end + i]);
                assert(w != suffix@);
                assert(s.len() - suffix@.len() == t_end);
                reveal(number_before);
                assert(number_before(s, suffix@).is_none());
            }
            return None;
        }
        i = i + 1;
    }
    assert(s.subrange(s.len() - suffix@.len(), s.len() as int) =~= suffix@);
    let ghost t = s.subrange(0, s.len() - suffix@.len());
    assert(t =~= row@.subrange(0, t_end as int));
    let mut start = t_end;
    while start > 0 && 48 <= row[start - 1] && row[start - 1] <= 57
        invariant
            start <= t_end <= row@.len(),
            t == row@.subrange(0, t_end as int),
            trailing_digits(t) == (t_end - start) + trailing_digits(row@.subrange(0, start as int)),
        decreases start,
    {
        let ghost u = row@.subrange(0, start as int);
        assert(u.drop_last() =~= row@.subrange(0, start - 1));
        start = start - 1;
    }
    assert(trailing_digits(row@.subrange(0, start as int)) == 0);
    if start == t_end {
        return None;
    }
    let ghost d = t.subrange(t.len() - (t_end - start), t.len() as int);
    assert(d =~= row@.subrange(start as int, t_end as int));
    let mut v: u128 = 0;
    let mut j = start;
    while j < t_end
        invariant
            start <= j <= t_end <= row@.len(),
            d == row@.subrange(start as int, t_end as int),
            v == digits_value(d.subrange(0, j - start)),
            v <= usize::MAX,
            t == row@.subrange(0, t_end as int),
            trailing_digits(t) == t_end - start,
            t_end + suffix@.len() == end <= row@.len(),
            s == row@.subrange(0, end as int),
            s.subrange(s.len() - suffix@.len(), s.len() as int) == suffix@,
            t == s.subrange(0, s.len() - suffix@.len()),
            d == t.subrange(t.len() - (t_end - start), t.len() as int),
        decreases t_end - j,
    {
        proof {
            lemma_trailing_run_digits(t, (t_end - start) as int, (j - start) as int);
        }
        let digit = row[j] - 48;
        assert(d.subrange(0, j + 1 - start).drop_last() =~= d.subrange(0, j - start));
        let w = v * 10 + digit as u128;
        assert(w == digits_value(d.subrange(0, j + 1 - start)));
        if w > usize::MAX as u128 {
            proof {
                lemma_digits_value_prefix(d, j + 1 - start);
                assert(digits_value(d) > usize::MAX);
                assert(trailing_digits(t) as int == t_end - start);
                reveal(number_before);
                assert(number_before(s, suffix@).is_none());
            }
            return None;
        }
        v = w;
        j = j + 1;
    }
    assert(d.subrange(0, j - start) =~= d);
    assert(t.subrange(0, t.len() - (t_end - start)) =~= row@.subrange(0, start as int));
    Some((start, v as usize))
}

/// The trailing run of digits is no longer than the bytes.
proof fn lemma_trailing_digits_len(t: Seq<u8>)
    ensures
        trailing_digits(t) <= t.len(),
    decreases t.len(),
{
    if t.len() > 0 {
        lemma_trailing_digits_len(t.drop_last());
    }
}

/// Every byte of the trailing run of digits is a digit.
proof fn lemma_trailing_run_digits(t: Seq<u8>, k: int, i: int)
    requires
        k == trailing_digits(t),
        0 <= i < k,
    ensures
        t.len() >= k,
        is_digit(t[t.len() - k + i]),
    decreases t.len(),
{
    lemma_trailing_digits_len(t);
    if i < k - 1 {
        lemma_trailing_run_digits(t.drop_last(), k - 1, i);
    }
}

/// Reads a hunk reference line: the path in front of the four newlines, and
/// the range after them.
#[verifier::rlimit(60)]
pub fn parse_row(row: &[u8]) -> (r: Option<HunkRef>)
    ensures
        match parse_hunk_ref(row@) {
            None => r.is_none(),
            Some((path, range)) => r.is_some() && r.unwrap().path@ == path && r.unwrap().range == range,
        },
{
    let mut close: Vec<u8> = Vec::new();
    close.push(32u8);
    close.push(64u8);
    close.push(64u8);
    let mut comma_v: Vec<u8> = Vec::new();
    comma_v.push(44u8);
    let mut plus: Vec<u8> = Vec::new();
    plus.push(32u8);
    plus.push(43u8);
    assert(close@ =~= range_close());
    assert(comma_v@ =~= comma());
    assert(plus@ =~= space_plus());
    assert(row@.subrange(0, row@.len() as int) =~= row@);
    let (e4, after_len) = match number_before_exec(row, row.len(), close.as_slice()) {
        None => return None,
        Some(x) => x,
    };
    let (e3, after_start) = match number_before_exec(row, e4, comma_v.as_slice()) {
        None => return None,
        Some(x) => x,
    };
    let (e2, before_len) = match number_before_exec(row, e3, plus.as_slice()) {
        None => return None,
        Some(x) => x,
    };
    let (e1, before_start) = match number_before_exec(row, e2, comma_v.as_slice()) {
        None => return None,
        Some(x) => x,
    };
    let ghost lead = separator() + range_open();
    let ghost r1 = row@.subrange(0, e1 as int);
    if before_start == 0 || after_start == 0 || e1 < 8 {
        return None;
    }
    let p = e1 - 8;
    if row[p] != 10 || row[p + 1] != 10 || row[p + 2] != 10 || row[p + 3] != 10 || row[p + 4] != 64
        || row[p + 5] != 64 || row[p + 6] != 32 || row[p + 7] != 45 {
        proof {
            let w = r1.subrange(r1.len() - lead.len(), r1.len() as int);
            assert(w[0] == row@[p as int] && w[1] == row@[p + 1] && w[2] == row@[p + 2] && w[3]
                == row@[p + 3] && w[4] == row@[p + 4] && w[5] == row@[p + 5] && w[6] == row@[p + 6]
                && w[7] == row@[p + 7]);
        }
        return None;
    }
    assert(r1.subrange(r1.len() - lead.len(), r1.len() as int) =~= lead);
    let mut path: Vec<u8> = Vec::new();
    put_bytes(&mut path, &row[0..p]);
    assert(path@ =~= r1.subrange(0, r1.len() - lead.len()));
    Some(
        HunkRef {
            path,
            range: DiffRange { before: (before_start - 1, before_len), after: (after_start - 1, after_len) },
        },
    )
}

proof fn lemma_decimal(n: nat)
    ensures
        decimal(n).len() >= 1,
        forall|i: int| 0 <= i < decimal(n).len() ==> is_digit(#[trigger] decimal(n)[i]),
        digits_value(decimal(n)) == n,
    decreases n,
{
    if n >= 10 {
        lemma_decimal(n / 10);
        let d = decimal(n);
        assert(d.drop_last() =~= decimal(n / 10));
        assert forall|i: int| 0 <= i < d.len() implies is_digit(#[trigger] d[i]) by {
            if i < d.len() - 1 {
                assert(d[i] == decimal(n / 10)[i]);
            }
        }
        assert(n == (n / 10) * 10 + n % 10) by (nonlinear_arith);
        assert(d.last() == (n % 10 + 48) as u8);
        assert((d.last() - 48) as nat == n % 10);
        assert(digits_value(d) == digits_value(d.drop_last()) * 10 + (d.last() - 48) as nat);
        assert(digits_value(d.drop_last()) == n / 10);
    } else {
        let d = decimal(n);
        assert(d.drop_last() =~= Seq::<u8>::empty());
        assert(digits_value(d.drop_last()) == 0);
        assert(d.last() == (n + 48) as u8);
        assert(digits_value(d) == digits_value(d.drop_last()) * 10 + (d.last() - 48) as nat);
    }
}

/// Digits appended after a non-digit make up the whole trailing run.
proof fn lemma_trailing_after(x: Seq<u8>, d: Seq<u8>)
    requires
        x.len() > 0,
        !is_digit(x.last()),
        forall|i: int| 0 <= i < d.len() ==> is_digit(#[trigger] d[i]),
    ensures
        trailing_digits(x + d) == d.len(),
    decreases d.len(),
{
    if d.len() == 0 {
        assert(x + d =~= x);
    } else {
        assert((x + d).drop_last() =~= x + d.drop_last());
        assert forall|i: int| 0 <= i < d.drop_last().len() implies is_digit(#[trigger] d.drop_last()[i]) by {
            assert(d.drop_last()[i] == d[i]);
        }
        lemma_trailing_after(x, d.drop_last());
        assert((x + d).last() == d.last());
        assert(is_digit(d[d.len() - 1]));
    }
}

/// The number written in front of `suffix`, after a non-digit, reads back.
proof fn lemma_number_before(x: Seq<u8>, n: nat, suffix: Seq<u8>)
    requires
        x.len() > 0,
        !is_digit(x.last()),
        n <= usize::MAX,
    ensures
        number_before(x + decimal(n) + suffix, suffix) == Some((x, n)),
{
    reveal(number_before);
    lemma_decimal(n);
    let s = x + decimal(n) + suffix;
    assert(s.subrange(s.len() - suffix.len(), s.len() as int) =~= suffix);
    let t = s.subrange(0, s.len() - suffix.len());
    assert(t =~= x + decimal(n));
    lemma_trailing_after(x, decimal(n));
    let k = decimal(n).len() as int;
    assert(t.subrange(t.len() - k, t.len() as int) =~= decimal(n));
    assert(t.subrange(0, t.len() - k) =~= x);
}

/// A range written after a path and four newlines parses back to the same
/// path and range, for every range whose starts leave room for the one-based
/// form in a `usize`.
pub proof fn lemma_range_round_trip(path: Seq<u8>, r: DiffRange)
    requires
        r.before.0 < usize::MAX,
        r.after.0 < usize::MAX,
    ensures
        parse_hunk_ref(path + separator() + range_text(r)) == Some((path, r)),
{
    let b0 = (r.before.0 + 1) as nat;
    let b1 = r.before.1 as nat;
    let a0 = (r.after.0 + 1) as nat;
    let a1 = r.after.1 as nat;
    let row = path + separator() + range_text(r);
    let x1 = path + separator() + range_open();
    let x2 = x1 + decimal(b0) + comma();
    let x3 = x2 + decimal(b1) + space_plus();
    let x4 = x3 + decimal(a0) + comma();
    assert(row =~= x4 + decimal(a1) + range_close());
    assert(x4.last() == 44u8);
    lemma_number_before(x4, a1, range_close());
    assert(x3.last() == 43u8);
    lemma_number_before(x3, a0, comma());
    assert(x2.last() == 44u8);
    lemma_number_before(x2, b1, space_plus());
    assert(x1.last() == 45u8);
    lemma_number_before(x1, b0, comma());
    let lead = separator() + range_open();
    assert(x1.subrange(x1.len() - lead.len(), x1.len() as int) =~= lead);
    assert(x1.subrange(0, x1.len() - lead.len()) =~= path);
}

} // verus!
