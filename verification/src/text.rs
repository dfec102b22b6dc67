//! Parsing of the numeric text inputs: the row-number field and the
//! search-column field. A number is a non-empty run of ASCII digits, after
//! an optional leading plus sign (which the number parsers of std allow
//! too); the row-number field additionally allows surrounding ASCII
//! whitespace, and a value that does not fit the target type is rejected.

use vstd::prelude::*;
use vstd::string::StringSliceAdditionalSpecFns;

verus! {

/// True when `b` is the code of an ASCII decimal digit.
pub open spec fn is_digit_byte(b: u8) -> bool {
    48 <= b <= 57
}

/// True when every byte of `s` is an ASCII decimal digit.
pub open spec fn all_digit_bytes(s: Seq<u8>) -> bool {
    forall|i: int| 0 <= i < s.len() ==> is_digit_byte(#[trigger] s[i])
}

/// Value of a digit string read in base ten, most significant digit first.
pub open spec fn digits_value(s: Seq<u8>) -> int
    decreases s.len(),
{
    if s.len() == 0 {
        0
    } else {
        digits_value(s.drop_last()) * 10 + (s.last() as int - 48)
    }
}

/// The digit part of a numeric field: everything after an optional leading
/// plus sign (byte 43).
pub open spec fn spec_digits_part(s: Seq<u8>) -> Seq<u8> {
    if s.len() > 0 && s[0] == 43 {
        s.drop_first()
    } else {
        s
    }
}

/// What a numeric text field denotes: after an optional leading plus sign,
/// a non-empty run of ASCII digits whose value fits in `usize`. Anything
/// else is rejected.
pub open spec fn spec_parse_usize(s: Seq<u8>) -> Option<usize> {
    let digits = spec_digits_part(s);
    if digits.len() > 0 && all_digit_bytes(digits) && digits_value(digits) <= usize::MAX {
        Some(digits_value(digits) as usize)
    } else {
        None
    }
}

/// True when `b` is an ASCII whitespace byte (space, tab, line feed,
/// vertical tab, form feed, carriage return).
pub open spec fn is_space_byte(b: u8) -> bool {
    b == 32 || (9 <= b <= 13)
}

/// `s` with leading whitespace bytes removed.
pub open spec fn drop_leading_spaces(s: Seq<u8>) -> Seq<u8>
    decreases s.len(),
{
    if s.len() > 0 && is_space_byte(s[0]) {
        drop_leading_spaces(s.drop_first())
    } else {
        s
    }
}

/// `s` with trailing whitespace bytes removed.
pub open spec fn drop_trailing_spaces(s: Seq<u8>) -> Seq<u8>
    decreases s.len(),
{
    if s.len() > 0 && is_space_byte(s.last()) {
        drop_trailing_spaces(s.drop_last())
    } else {
        s
    }
}

/// `s` with whitespace bytes removed at both ends.
pub open spec fn spec_trim_spaces(s: Seq<u8>) -> Seq<u8> {
    drop_trailing_spaces(drop_leading_spaces(s))
}

/// What the search-column field denotes: its digit value when it fits in a
/// byte, and column 0 for any input that is not a small number.
pub open spec fn spec_column_index(s: Seq<u8>) -> int {
    match spec_parse_usize(s) {
        Some(v) => if v <= 255 {
            v as int
        } else {
            0
        },
        None => 0,
    }
}

/// A digit string is worth at least any of its prefixes.
proof fn lemma_digits_value_prefix_le(s: Seq<u8>, n: int)
    requires
        all_digit_bytes(s),
        0 <= n <= s.len(),
    ensures
        0 <= digits_value(s.subrange(0, n)) <= digits_value(s),
    decreases s.len() - n,
{
    if n == s.len() {
        assert(s.subrange(0, n) =~= s);
        lemma_digits_value_nonneg(s.subrange(0, n));
    } else {
        lemma_digits_value_prefix_le(s, n + 1);
        let p = s.subrange(0, n + 1);
        assert(p.drop_last() =~= s.subrange(0, n));
        lemma_digits_value_nonneg(s.subrange(0, n));
        assert(digits_value(s.subrange(0, n)) <= digits_value(p));
    }
}

/// A string of digits has a non-negative value.
proof fn lemma_digits_value_nonneg(s: Seq<u8>)
    requires
        all_digit_bytes(s),
    ensures
        digits_value(s) >= 0,
    decreases s.len(),
{
    if s.len() > 0 {
        assert(all_digit_bytes(s.drop_last())) by {
            assert(forall|i: int|
                0 <= i < s.len() - 1 ==> is_digit_byte(#[trigger] s.drop_last()[i]));
        }
        lemma_digits_value_nonneg(s.drop_last());
    }
}

/// Parses the bytes of `s` between `lo` and `hi` as a base-ten number.
pub fn parse_usize_range(s: &[u8], lo: usize, hi: usize) -> (r: Option<usize>)
    requires
        lo <= hi <= s@.len(),
    ensures
        r == spec_parse_usize(s@.subrange(lo as int, hi as int)),
{
    let ghost whole = s@.subrange(lo as int, hi as int);
    let start = if lo < hi && s[lo] == 43 {
        lo + 1
    } else {
        lo
    };
    let ghost digits = s@.subrange(start as int, hi as int);
    proof {
        if lo < hi && s@[lo as int] == 43 {
            assert(whole.drop_first() =~= s@.subrange(lo as int + 1, hi as int));
        }
        assert(spec_digits_part(whole) == digits);
    }
    if start == hi {
        return None;
    }
    let mut acc: usize = 0;
    let mut i: usize = start;
    while i < hi
        invariant
            start <= i <= hi <= s@.len(),
            digits == s@.subrange(start as int, hi as int),
            spec_digits_part(whole) == digits,
            whole == s@.subrange(lo as int, hi as int),
            all_digit_bytes(digits.subrange(0, i - start)),
            acc == digits_value(digits.subrange(0, i - start)),
        decreases hi - i,
    {
        let b = s[i];
        assert(b == digits[i - start]);
        if b < 48 || b > 57 {
            assert(!all_digit_bytes(digits));
            return None;
        }
        let d = (b - 48) as usize;
        proof {
            assert(digits.subrange(0, i - start + 1).drop_last() =~= digits.subrange(0, i - start));
            assert(digits.subrange(0, i - start + 1).last() == b);
        }
        let step = match acc.checked_mul(10) {
            Some(v) => v.checked_add(d),
            None => None,
        };
        match step {
            Some(v) => {
                acc = v;
            },
            None => {
                proof {
                    assert(all_digit_bytes(digits.subrange(0, i - start + 1)));
                    if all_digit_bytes(digits) {
                        lemma_digits_value_prefix_le(digits, i - start + 1);
                    }
                }
                return None;
            },
        }
        i += 1;
    }
    proof {
        assert(digits.subrange(0, hi - start) =~= digits);
    }
    Some(acc)
}

/// Parses a whole byte string as a base-ten number, with no trimming.
pub fn parse_usize_bytes(s: &[u8]) -> (r: Option<usize>)
    ensures
        r == spec_parse_usize(s@),
{
    let r = parse_usize_range(s, 0, s.len());
    proof {
        assert(s@.subrange(0, s@.len() as int) =~= s@);
    }
    r
}

/// Parses the row-number input: ASCII whitespace around the number is
/// ignored, as the lookup control ignores it before reading the number.
/// Only ASCII whitespace is stripped; text with any other white space
/// character around the number counts as malformed, like any other
/// non-numeric text.
pub fn parse_row_number(s: &str) -> (r: Option<usize>)
    ensures
        r == spec_parse_usize(spec_trim_spaces(s.spec_bytes())),
{
    let bytes = s.as_bytes();
    let ghost whole = bytes@;
    let mut lo: usize = 0;
    let n = bytes.len();
    proof {
        assert(whole.subrange(0, n as int) =~= whole);
    }
    while lo < n && (bytes[lo] == 32 || (9 <= bytes[lo] && bytes[lo] <= 13))
        invariant
            0 <= lo <= n == whole.len(),
            bytes@ == whole,
            drop_leading_spaces(whole) == drop_leading_spaces(whole.subrange(lo as int, n as int)),
        decreases n - lo,
    {
        proof {
            assert(whole.subrange(lo as int, n as int).drop_first() =~= whole.subrange(
                lo as int + 1,
                n as int,
            ));
        }
        lo += 1;
    }
    proof {
        if lo == n {
            assert(whole.subrange(lo as int, n as int) =~= Seq::<u8>::empty());
        }
        assert(drop_leading_spaces(whole) == whole.subrange(lo as int, n as int));
    }
    let mut hi: usize = n;
    while hi > lo && (bytes[hi - 1] == 32 || (9 <= bytes[hi - 1] && bytes[hi - 1] <= 13))
        invariant
            lo <= hi <= n == whole.len(),
            bytes@ == whole,
            drop_leading_spaces(whole) == whole.subrange(lo as int, n as int),
            drop_trailing_spaces(whole.subrange(lo as int, n as int)) == drop_trailing_spaces(
                whole.subrange(lo as int, hi as int),
            ),
        decreases hi,
    {
        proof {
            assert(whole.subrange(lo as int, hi as int).drop_last() =~= whole.subrange(
                lo as int,
                hi as int - 1,
            ));
        }
        hi -= 1;
    }
    proof {
        if hi == lo {
            assert(whole.subrange(lo as int, hi as int) =~= Seq::<u8>::empty());
        }
        assert(spec_trim_spaces(whole) == whole.subrange(lo as int, hi as int));
    }
    let r = parse_usize_range(bytes, lo, hi);
    r
}

/// Parses the search-column input as the column index, falling back to
/// column 0 on any text that is not a number fitting in a byte.
pub fn parse_column_index(s: &str) -> (r: u8)
    ensures
        r as int == spec_column_index(s.spec_bytes()),
{
    let bytes = s.as_bytes();
    match parse_usize_bytes(bytes) {
        Some(v) => if v <= 255 {
            v as u8
        } else {
            0
        },
        None => 0,
    }
}

} // verus!
