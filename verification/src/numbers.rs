//! Parsing of numeric command-line values.

use vstd::prelude::*;
use vstd::string::StringSliceAdditionalSpecFns;

verus! {

/// An ASCII decimal digit.
pub open spec fn is_digit(b: u8) -> bool {
    0x30 <= b <= 0x39
}

/// The number that the digit bytes `s` write in decimal.
pub open spec fn digits_value(s: Seq<u8>) -> int
    decreases s.len(),
{
    if s.len() == 0 {
        0
    } else {
        digits_value(s.drop_last()) * 10 + (s.last() - 0x30)
    }
}

/// The digit part of a numeral: the bytes after an optional leading '+'.
pub open spec fn numeral_digits(s: Seq<u8>) -> Seq<u8> {
    if s.len() > 0 && s[0] == 0x2B {
        s.skip(1)
    } else {
        s
    }
}

/// How many leading bytes of `s` are digits.
pub open spec fn digit_run_len(s: Seq<u8>) -> int
    decreases s.len(),
{
    if s.len() == 0 || !is_digit(s[0]) {
        0
    } else {
        1 + digit_run_len(s.skip(1))
    }
}

/// Whether the bytes `b` write a decimal numeral whose value fits a u32:
/// an optional '+', then at least one digit and nothing else, for a value
/// of at most u32::MAX.
pub open spec fn is_u32_numeral(b: Seq<u8>) -> bool {
    let ds = numeral_digits(b);
    &&& b.len() > 0
    &&& ds.len() > 0
    &&& digit_run_len(ds) == ds.len()
    &&& digits_value(ds) <= u32::MAX
}

/// The value a well-formed numeral stands for.
pub open spec fn spec_u32_numeral_value(b: Seq<u8>) -> int {
    digits_value(numeral_digits(b))
}

/// The complaint for a numeral that does not parse, naming the first
/// failure a left-to-right scan meets: an empty input, a digit run that
/// already exceeds the target range, or a byte that is no digit.
pub open spec fn spec_parse_u32_error(b: Seq<u8>) -> Seq<char> {
    let ds = numeral_digits(b);
    let j = digit_run_len(ds);
    if b.len() == 0 {
        "Invalid integer: cannot parse integer from empty string"@
    } else if ds.len() > 0 && digits_value(ds.take(j)) > u32::MAX {
        "Invalid integer: number too large to fit in target type"@
    } else {
        "Invalid integer: invalid digit found in string"@
    }
}

proof fn lemma_digit_run_len_bounds(s: Seq<u8>)
    ensures
        0 <= digit_run_len(s) <= s.len(),
        forall|t: int| 0 <= t < digit_run_len(s) ==> is_digit(s[t]),
        digit_run_len(s) < s.len() ==> !is_digit(s[digit_run_len(s)]),
    decreases s.len(),
{
    if !(s.len() == 0 || !is_digit(s[0])) {
        lemma_digit_run_len_bounds(s.skip(1));
        assert forall|t: int| 0 <= t < digit_run_len(s) implies is_digit(s[t]) by {
            if t >= 1 {
                assert(s[t] == s.skip(1)[t - 1]);
            }
        }
        if digit_run_len(s) < s.len() {
            assert(s[digit_run_len(s)] == s.skip(1)[digit_run_len(s) - 1]);
        }
    }
}

proof fn lemma_digit_run_len_exact(s: Seq<u8>, j: int)
    requires
        0 <= j <= s.len(),
        forall|t: int| 0 <= t < j ==> is_digit(s[t]),
        j == s.len() || !is_digit(s[j]),
    ensures
        digit_run_len(s) == j,
    decreases s.len(),
{
    if j == 0 {
    } else {
        assert(is_digit(s[0]));
        assert forall|t: int| 0 <= t < j - 1 implies is_digit(s.skip(1)[t]) by {
            assert(s.skip(1)[t] == s[t + 1]);
        }
        if j - 1 < s.skip(1).len() {
            assert(s.skip(1)[j - 1] == s[j]);
        }
        lemma_digit_run_len_exact(s.skip(1), j - 1);
    }
}

proof fn lemma_digits_value_nonneg(s: Seq<u8>)
    requires
        forall|t: int| 0 <= t < s.len() ==> is_digit(s[t]),
    ensures
        digits_value(s) >= 0,
    decreases s.len(),
{
    if s.len() > 0 {
        lemma_digits_value_nonneg(s.drop_last());
    }
}

proof fn lemma_digits_value_monotone(s: Seq<u8>, a: int, b: int)
    requires
        0 <= a <= b <= s.len(),
        forall|t: int| 0 <= t < b ==> is_digit(s[t]),
    ensures
        digits_value(s.take(a)) <= digits_value(s.take(b)),
    decreases b - a,
{
    if a < b {
        lemma_digits_value_monotone(s, a, b - 1);
        let sb = s.take(b - 1);
        assert(s.take(b).drop_last() =~= sb);
        assert forall|t: int| 0 <= t < sb.len() implies is_digit(#[trigger] sb[t]) by {
            assert(sb[t] == s[t]);
        }
        lemma_digits_value_nonneg(sb);
        assert(s.take(b).last() == s[b - 1]);
    }
}

/// Parses a decimal u32 from a command-line value, reporting failures the
/// way the standard library's integer parser words them.
pub fn str_to_u32(s: &str) -> (r: Result<u32, String>)
    ensures
        r is Ok <==> is_u32_numeral(s.spec_bytes()),
        r is Ok ==> r->Ok_0 == spec_u32_numeral_value(s.spec_bytes()),
        r is Err ==> r->Err_0@ == spec_parse_u32_error(s.spec_bytes()),
{
    let bytes = s.as_bytes();
    let n: usize = bytes.len();
    if n == 0 {
        return Err("Invalid integer: cannot parse integer from empty string".to_owned());
    }
    let start: usize = if bytes[0] == 0x2B {
        1
    } else {
        0
    };
    let ghost ds = numeral_digits(bytes@);
    proof {
        if start == 1 {
            assert(ds =~= bytes@.skip(1));
        } else {
            assert(ds =~= bytes@);
        }
    }
    if n - start == 0 {
        return Err("Invalid integer: invalid digit found in string".to_owned());
    }
    let mut acc: u32 = 0;
    let mut i: usize = start;
    proof {
        assert(ds.take(0) =~= Seq::<u8>::empty());
    }
    while i < n
        invariant
            start <= i <= n,
            start <= 1,
            bytes@ == s.spec_bytes(),
            ds == numeral_digits(s.spec_bytes()),
            n == bytes@.len(),
            n - start == ds.len(),
            forall|t: int| 0 <= t < ds.len() ==> ds[t] == bytes@[t + start],
            forall|t: int| 0 <= t < i - start ==> is_digit(ds[t]),
            acc == digits_value(ds.take(i - start)),
        decreases n - i,
    {
        let ghost j = i - start;
        let b: u8 = bytes[i];
        if b < 0x30 || b > 0x39 {
            proof {
                lemma_digit_run_len_exact(ds, j);
            }
            return Err("Invalid integer: invalid digit found in string".to_owned());
        }
        let d: u32 = (b - 0x30) as u32;
        let next: u64 = acc as u64 * 10 + d as u64;
        proof {
            assert(ds.take(j + 1).drop_last() =~= ds.take(j));
            assert(ds.take(j + 1).last() == ds[j]);
            assert(ds[j] == bytes@[i as int]);
            assert(digits_value(ds.take(j + 1)) == digits_value(ds.take(j)) * 10 + (ds[j] - 0x30));
        }
        if next > 0xFFFF_FFFF {
            proof {
                lemma_digit_run_len_bounds(ds);
                if digit_run_len(ds) < j + 1 {
                    lemma_digit_run_len_exact(ds, digit_run_len(ds));
                    assert(false);
                }
                lemma_digits_value_monotone(ds, j + 1, digit_run_len(ds));
                if digit_run_len(ds) == ds.len() {
                    assert(ds.take(digit_run_len(ds)) =~= ds);
                }
            }
            return Err("Invalid integer: number too large to fit in target type".to_owned());
        }
        acc = next as u32;
        i += 1;
    }
    proof {
        assert(ds.take(ds.len() as int) =~= ds);
        lemma_digit_run_len_exact(ds, ds.len() as int);
    }
    Ok(acc)
}

} // verus!
