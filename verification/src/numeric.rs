//! Verified parsing of the decimal string properties that archive
//! blobs carry (cardinalities): an optional leading `+`, then one or
//! more ASCII digits, rejected on any other character or on overflow.

use vstd::prelude::*;
use vstd::string::StrSliceExecFns;

verus! {

/// Is `c` an ASCII decimal digit?
pub open spec fn is_digit(c: char) -> bool {
    48 <= c as u32 <= 57
}

/// Numeric value of a digit character.
pub open spec fn digit_val(c: char) -> int {
    c as u32 - 48
}

/// Are all characters of `s` ASCII decimal digits?
pub open spec fn all_digits(s: Seq<char>) -> bool {
    forall|i: int| 0 <= i < s.len() ==> is_digit(s[i])
}

/// Value of a digit string read most-significant first.
pub open spec fn digits_val(s: Seq<char>) -> int
    decreases s.len(),
{
    if s.len() == 0 {
        0
    } else {
        digits_val(s.drop_last()) * 10 + digit_val(s.last())
    }
}

/// The digit part of a decimal string: everything after one optional
/// leading `+`.
pub open spec fn digits_part(s: Seq<char>) -> Seq<char> {
    if s.len() > 0 && s[0] == '+' {
        s.subrange(1, s.len() as int)
    } else {
        s
    }
}

/// What parsing a decimal string as an unsigned 64-bit number yields:
/// the digits' value when the shape is right and the value fits, and
/// nothing otherwise.
pub open spec fn parse_u64_spec(s: Seq<char>) -> Option<u64> {
    let d = digits_part(s);
    if d.len() > 0 && all_digits(d) && digits_val(d) <= u64::MAX {
        Some(digits_val(d) as u64)
    } else {
        None
    }
}

/// The value of a digit string is never negative.
proof fn lemma_digits_val_nonneg(s: Seq<char>)
    requires
        all_digits(s),
    ensures
        digits_val(s) >= 0,
    decreases s.len(),
{
    if s.len() > 0 {
        assert(all_digits(s.drop_last()));
        lemma_digits_val_nonneg(s.drop_last());
    }
}

/// Extending a digit string can only grow its value.
proof fn lemma_digits_val_prefix(s: Seq<char>, k: int)
    requires
        all_digits(s),
        0 <= k <= s.len(),
    ensures
        digits_val(s.subrange(0, k)) <= digits_val(s),
    decreases s.len() - k,
{
    assert(all_digits(s.subrange(0, k)));
    if k == s.len() {
        assert(s.subrange(0, k) =~= s);
    } else {
        let t = s.subrange(0, k + 1);
        assert(t.drop_last() =~= s.subrange(0, k));
        lemma_digits_val_nonneg(s.subrange(0, k));
        assert(digits_val(t) == digits_val(s.subrange(0, k)) * 10 + digit_val(t.last()));
        lemma_digits_val_nonneg(s.subrange(0, k));
        assert(digits_val(s.subrange(0, k)) <= digits_val(s.subrange(0, k)) * 10 + digit_val(
            t.last(),
        ));
        lemma_digits_val_prefix(s, k + 1);
    }
}

/// Parse a decimal string as an unsigned 64-bit number: an optional
/// leading `+`, then one or more digits; anything else, or a value
/// over `u64::MAX`, yields nothing.
pub fn parse_u64(s: &str) -> (r: Option<u64>)
    ensures
        r == parse_u64_spec(s@),
{
    let n = s.unicode_len();
    let mut i: usize = 0;
    if n > 0 && s.get_char(0) == '+' {
        i = 1;
    }
    let ghost d = digits_part(s@);
    let ghost start = i as int;
    if i == n {
        // no digits at all
        assert(d.len() == 0);
        return None;
    }
    assert(d =~= s@.subrange(start, n as int));
    let mut acc: u64 = 0;
    while i < n
        invariant
            start <= i as int <= n,
            n == s@.len(),
            0 < n,
            start == 0 || start == 1,
            d == digits_part(s@),
            d =~= s@.subrange(start, n as int),
            d.len() == n - start > 0,
            all_digits(d.subrange(0, i - start)),
            acc == digits_val(d.subrange(0, i - start)),
        decreases n - i,
    {
        let c = s.get_char(i);
        let ghost k = i - start;
        assert(d[k] == c);
        let cv = c as u32;
        if cv < 48 || cv > 57 {
            proof {
                assert(0 <= k < d.len());
                assert(!is_digit(d[k]));
                assert(!all_digits(d));
            }
            return None;
        }
        let dv = (cv - 48) as u64;
        proof {
            assert(d.subrange(0, k + 1).drop_last() =~= d.subrange(0, k));
            assert(d.subrange(0, k + 1).last() == c);
            assert(digits_val(d.subrange(0, k + 1)) == acc * 10 + dv);
            assert(all_digits(d.subrange(0, k + 1)));
        }
        if acc > (u64::MAX - dv) / 10 {
            proof {
                assert(acc * 10 + dv > u64::MAX) by (nonlinear_arith)
                    requires
                        acc > (u64::MAX - dv) / 10,
                        dv <= 9,
                ;
                if all_digits(d) {
                    lemma_digits_val_prefix(d, k + 1);
                    assert(digits_val(d) > u64::MAX);
                }
            }
            return None;
        }
        assert(acc * 10 + dv <= u64::MAX) by (nonlinear_arith)
            requires
                acc <= (u64::MAX - dv) / 10,
                dv <= 9,
        ;
        acc = acc * 10 + dv;
        i = i + 1;
    }
    proof {
        assert(d.subrange(0, i - start) =~= d);
        lemma_digits_val_nonneg(d);
    }
    Some(acc)
}

} // verus!
