//! Decimal numerals: the grammar in which pids and ports appear in listing
//! output, and a verified bounded parser for it.
use vstd::prelude::*;

verus! {

pub open spec fn is_digit(c: char) -> bool {
    48 <= c as u32 <= 57
}

pub open spec fn digit_val(c: char) -> int {
    c as u32 - 48
}

/// `s` is a non-empty string of decimal digits.
pub open spec fn all_digits(s: Seq<char>) -> bool {
    s.len() > 0 && forall|i: int| 0 <= i < s.len() ==> is_digit(s[i])
}

/// The value of `s` read as a decimal numeral.
pub open spec fn dec_val(s: Seq<char>) -> int
    decreases s.len(),
{
    if s.len() == 0 {
        0
    } else {
        10 * dec_val(s.drop_last()) + digit_val(s.last())
    }
}

pub proof fn lemma_dec_val_nonneg(s: Seq<char>)
    requires
        forall|i: int| 0 <= i < s.len() ==> is_digit(s[i]),
    ensures
        dec_val(s) >= 0,
    decreases s.len(),
{
    if s.len() > 0 {
        lemma_dec_val_nonneg(s.drop_last());
    }
}

/// A decimal numeral is at least as large as any of its prefixes.
pub proof fn lemma_dec_val_prefix_le(s: Seq<char>, i: int)
    requires
        forall|m: int| 0 <= m < s.len() ==> is_digit(s[m]),
        0 <= i <= s.len(),
    ensures
        dec_val(s.take(i)) <= dec_val(s),
    decreases s.len() - i,
{
    if i < s.len() {
        assert(s.take(i + 1).drop_last() =~= s.take(i));
        lemma_dec_val_nonneg(s.take(i));
        assert(dec_val(s.take(i + 1)) == 10 * dec_val(s.take(i)) + digit_val(s[i]));
        lemma_dec_val_prefix_le(s, i + 1);
    } else {
        assert(s.take(i) =~= s);
    }
}

/// Parses `t` as a decimal numeral of value at most `cap`. Returns the value
/// exactly when `t` is a non-empty digit string whose value is within the
/// cap; anything else is rejected.
pub fn parse_decimal_capped(t: &str, cap: u64) -> (r: Option<u64>)
    requires
        cap <= 0xFFFF_FFFF,
    ensures
        match r {
            Some(v) => all_digits(t@) && dec_val(t@) == v && v <= cap,
            None => !(all_digits(t@) && dec_val(t@) <= cap),
        },
{
    let n = t.unicode_len();
    if n == 0 {
        return None;
    }
    let mut acc: u64 = 0;
    let mut i: usize = 0;
    proof {
        assert(t@.take(0) =~= Seq::<char>::empty());
    }
    while i < n
        invariant
            n == t@.len(),
            n > 0,
            i <= n,
            cap <= 0xFFFF_FFFF,
            forall|m: int| 0 <= m < i ==> is_digit(t@[m]),
            acc == dec_val(t@.take(i as int)),
            acc <= cap,
        decreases n - i,
    {
        let c = t.get_char(i);
        let u = c as u32;
        if u < 48 || u > 57 {
            return None;
        }
        let d = (u - 48) as u64;
        let next = acc * 10 + d;
        proof {
            assert(t@.take(i + 1).drop_last() =~= t@.take(i as int));
            assert(dec_val(t@.take(i + 1)) == 10 * dec_val(t@.take(i as int)) + digit_val(
                t@[i as int],
            ));
        }
        if next > cap {
            proof {
                if all_digits(t@) {
                    lemma_dec_val_prefix_le(t@, i + 1);
                }
            }
            return None;
        }
        acc = next;
        i = i + 1;
    }
    proof {
        assert(t@.take(n as int) =~= t@);
    }
    Some(acc)
}

} // verus!
