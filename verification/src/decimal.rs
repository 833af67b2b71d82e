//! ASCII decimal numbers: the grammar that `i64::from_str` accepts, and the
//! text that `Display` writes for integers.
use vstd::prelude::*;

verus! {

/// `b` is one of the ASCII digits `0`..`9`.
pub open spec fn is_digit(b: u8) -> bool {
    48 <= b <= 57
}

/// Every byte of `s` is an ASCII digit.
pub open spec fn all_digits(s: Seq<u8>) -> bool {
    forall|i: int| 0 <= i < s.len() ==> is_digit(#[trigger] s[i])
}

/// The number that a run of ASCII digits denotes, most significant digit first.
pub open spec fn digits_value(s: Seq<u8>) -> nat
    decreases s.len(),
{
    if s.len() == 0 {
        0
    } else {
        digits_value(s.drop_last()) * 10 + (s.last() - 48) as nat
    }
}

/// What `i64::from_str` returns on the bytes `b`: an optional `+` or `-` sign, then
/// at least one ASCII digit and nothing else, denoting a value inside the `i64` range.
pub open spec fn parse_i64_spec(b: Seq<u8>) -> Option<i64> {
    let signed = b.len() > 0 && (b[0] == 45 || b[0] == 43);
    let negative = b.len() > 0 && b[0] == 45;
    let digits = if signed { b.drop_first() } else { b };
    let magnitude = digits_value(digits) as int;
    let value = if negative { -magnitude } else { magnitude };
    if digits.len() > 0 && all_digits(digits) && i64::MIN <= value <= i64::MAX {
        Some(value as i64)
    } else {
        None
    }
}

/// The shortest ASCII digits that denote `n` (a lone `0` for zero).
pub open spec fn nat_digits(n: nat) -> Seq<u8>
    decreases n,
{
    if n < 10 {
        seq![(n + 48) as u8]
    } else {
        nat_digits(n / 10).push((n % 10 + 48) as u8)
    }
}

/// The text that `Display` writes for a signed integer: a `-` for negative values,
/// then the digits of the magnitude.
pub open spec fn int_text(n: int) -> Seq<u8> {
    if n < 0 {
        seq![45u8] + nat_digits((-n) as nat)
    } else {
        nat_digits(n as nat)
    }
}

/// A prefix of a run of digits denotes at most what the whole run denotes.
pub proof fn lemma_digits_prefix_le(s: Seq<u8>, k: int)
    requires
        all_digits(s),
        0 <= k <= s.len(),
    ensures
        digits_value(s.take(k)) <= digits_value(s),
    decreases s.len(),
{
    if k == s.len() {
        assert(s.take(k) =~= s);
    } else {
        let t = s.drop_last();
        assert(t.take(k) =~= s.take(k));
        assert(all_digits(t)) by {
            assert forall|i: int| 0 <= i < t.len() implies is_digit(#[trigger] t[i]) by {
                assert(t[i] == s[i]);
            }
        }
        lemma_digits_prefix_le(t, k);
    }
}

/// The digits of `n` are digits, there is at least one, and they denote `n`.
pub proof fn lemma_nat_digits(n: nat)
    ensures
        nat_digits(n).len() >= 1,
        all_digits(nat_digits(n)),
        digits_value(nat_digits(n)) == n,
    decreases n,
{
    if n < 10 {
        let d = nat_digits(n);
        assert(d.drop_last() =~= Seq::<u8>::empty());
        assert(d.last() == (n + 48) as u8);
        assert(digits_value(d) == digits_value(d.drop_last()) * 10 + (d.last() - 48) as nat);
    } else {
        lemma_nat_digits(n / 10);
        let d = nat_digits(n);
        assert(n == (n / 10) * 10 + n % 10) by (nonlinear_arith);
        assert(d.last() == (n % 10 + 48) as u8);
        assert(digits_value(d) == digits_value(d.drop_last()) * 10 + (d.last() - 48) as nat);
        assert(d.drop_last() =~= nat_digits(n / 10));
        assert(all_digits(d)) by {
            assert forall|i: int| 0 <= i < d.len() implies is_digit(#[trigger] d[i]) by {
                if i < d.len() - 1 {
                    assert(d[i] == nat_digits(n / 10)[i]);
                }
            }
        }
    }
}

/// The decimal text of an integer reads back as that integer.
pub proof fn law_integer_text_reads_back(n: i64)
    ensures
        parse_i64_spec(int_text(n as int)) == Some(n),
{
    let t = int_text(n as int);
    if n < 0 {
        let m = (-(n as int)) as nat;
        lemma_nat_digits(m);
        assert(t.drop_first() =~= nat_digits(m));
        assert(t[0] == 45u8);
    } else {
        lemma_nat_digits(n as nat);
        let d = nat_digits(n as nat);
        assert(is_digit(d[0]));
    }
}

/// Parses the bytes as `i64::from_str` does.
pub fn parse_i64(b: &[u8]) -> (r: Option<i64>)
    ensures
        r == parse_i64_spec(b@),
{
    let len = b.len();
    if len == 0 {
        return None;
    }
    let mut start: usize = 0;
    let mut negative = false;
    if b[0] == 45 {
        negative = true;
        start = 1;
    } else if b[0] == 43 {
        start = 1;
    }
    let ghost digits = b@.subrange(start as int, len as int);
    assert(digits =~= (if start == 1 { b@.drop_first() } else { b@ }));
    if start == len {
        return None;
    }
    let limit: u64 = if negative { 9223372036854775808 } else { 9223372036854775807 };
    let mut acc: u64 = 0;
    let mut i: usize = start;
    assert(b@.subrange(start as int, start as int) =~= Seq::<u8>::empty());
    while i < len
        invariant
            start <= i <= len,
            len == b@.len(),
            start < len,
            digits == b@.subrange(start as int, len as int),
            digits == (if start == 1 { b@.drop_first() } else { b@ }),
            (start == 1) == (b@[0] == 45 || b@[0] == 43),
            start <= 1,
            negative == (b@[0] == 45),
            limit == (if negative { 9223372036854775808u64 } else { 9223372036854775807u64 }),
            all_digits(b@.subrange(start as int, i as int)),
            acc == digits_value(b@.subrange(start as int, i as int)),
            acc <= limit,
        decreases len - i,
    {
        let c = b[i];
        if c < 48 || c > 57 {
            assert(digits[i - start] == c);
            return None;
        }
        let d: u64 = (c - 48) as u64;
        let ghost next = b@.subrange(start as int, i + 1);
        assert(next.drop_last() =~= b@.subrange(start as int, i as int));
        assert(all_digits(next)) by {
            assert forall|k: int| 0 <= k < next.len() implies is_digit(#[trigger] next[k]) by {
                if k < next.len() - 1 {
                    assert(next[k] == b@.subrange(start as int, i as int)[k]);
                }
            }
        }
        if acc > (limit - d) / 10 {
            assert(acc * 10 + d > limit) by (nonlinear_arith)
                requires
                    acc > (limit - d) / 10,
                    d <= 9,
                    d <= limit,
            ;
            proof {
                if all_digits(digits) {
                    assert(next =~= digits.take(i + 1 - start));
                    lemma_digits_prefix_le(digits, i + 1 - start);
                }
            }
            return None;
        }
        assert(acc * 10 + d <= limit) by (nonlinear_arith)
            requires
                acc <= (limit - d) / 10,
                d <= 9,
                d <= limit,
        ;
        acc = acc * 10 + d;
        i = i + 1;
    }
    assert(b@.subrange(start as int, i as int) == digits);
    if negative {
        if acc == 9223372036854775808 {
            Some(i64::MIN)
        } else {
            let v: i64 = acc as i64;
            Some(-v)
        }
    } else {
        Some(acc as i64)
    }
}

/// Appends the digits of `n` to `out`.
pub fn push_nat_digits(out: &mut Vec<u8>, n: u64)
    ensures
        final(out)@ == old(out)@ + nat_digits(n as nat),
    decreases n,
{
    if n >= 10 {
        push_nat_digits(out, n / 10);
    }
    let d: u8 = (n % 10) as u8;
    out.push(d + 48);
    proof {
        if n >= 10 {
            assert(old(out)@ + nat_digits(n as nat) =~= old(out)@ + nat_digits((n / 10) as nat) + seq![
                (d + 48) as u8,
            ]);
        } else {
            assert(old(out)@ + nat_digits(n as nat) =~= old(out)@ + seq![(d + 48) as u8]);
        }
    }
}

/// Appends the text that `Display` writes for `n`.
pub fn push_i64_text(out: &mut Vec<u8>, n: i64)
    ensures
        final(out)@ == old(out)@ + int_text(n as int),
{
    if n < 0 {
        out.push(45);
        let magnitude: u64 = (-(n as i128)) as u64;
        push_nat_digits(out, magnitude);
        assert(out@ =~= old(out)@ + int_text(n as int));
    } else {
        push_nat_digits(out, n as u64);
    }
}

} // verus!
