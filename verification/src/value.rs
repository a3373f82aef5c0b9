//! Conversion of raw field tokens into typed values.
//!
//! The parser is generic over the target value type through [`FromField`]: a
//! narrow interface with one conversion function and a specification of
//! exactly which tokens it accepts. An implementation for `u32` is provided;
//! it accepts an optional leading `+` followed by one or more decimal digits
//! whose value fits in `u32`.

use vstd::prelude::*;
use vstd::string::StringExecFns;

verus! {

/// A value type that can be read from a raw field token. `spec_accepts`
/// says, for every token, whether conversion succeeds; `spec_value` says
/// which values the token converts to; `from_field` computes one.
pub trait FromField: Sized {
    /// Does conversion succeed on token `s`?
    spec fn spec_accepts(s: Seq<char>) -> bool;

    /// Is `v` the value that token `s` converts to?
    spec fn spec_value(s: Seq<char>, v: Self) -> bool;

    fn from_field(s: &str) -> (r: Option<Self>)
        ensures
            r is Some <==> Self::spec_accepts(s@),
            r matches Some(v) ==> Self::spec_value(s@, v),
    ;
}

impl FromField for String {
    /// Conversion to the token itself never fails.
    open spec fn spec_accepts(s: Seq<char>) -> bool {
        true
    }

    /// The value is the token itself.
    open spec fn spec_value(s: Seq<char>, v: String) -> bool {
        v@ == s
    }

    fn from_field(s: &str) -> (r: Option<String>) {
        Some(String::from_str(s))
    }
}

/// True for the ten decimal digit characters.
pub open spec fn is_digit(c: char) -> bool {
    '0' <= c && c <= '9'
}

/// The numeric value of a digit character.
pub open spec fn digit_val(c: char) -> int {
    c as int - '0' as int
}

/// True when every character of `s` is a decimal digit.
pub open spec fn all_digits(s: Seq<char>) -> bool {
    forall|i: int| 0 <= i < s.len() ==> is_digit(s[i])
}

/// The value of a digit string read in base ten, most significant first.
pub open spec fn dec_val(s: Seq<char>) -> int
    decreases s.len(),
{
    if s.len() == 0 {
        0
    } else {
        dec_val(s.drop_last()) * 10 + digit_val(s.last())
    }
}

/// What a `u32` field accepts: an optional leading `+`, then at least one
/// decimal digit, with a value of at most `u32::MAX`.
pub open spec fn u32_field(s: Seq<char>) -> Option<u32> {
    let d = if s.len() > 0 && s[0] == '+' {
        s.drop_first()
    } else {
        s
    };
    if d.len() > 0 && all_digits(d) && dec_val(d) <= u32::MAX {
        Some(dec_val(d) as u32)
    } else {
        None
    }
}

/// The value of a digit string is never negative.
pub proof fn lemma_dec_val_nonneg(s: Seq<char>)
    requires
        all_digits(s),
    ensures
        dec_val(s) >= 0,
    decreases s.len(),
{
    if s.len() > 0 {
        assert(all_digits(s.drop_last()));
        lemma_dec_val_nonneg(s.drop_last());
    }
}

/// Reading more digits never decreases the value: any prefix of a digit
/// string is worth at most the whole string.
pub proof fn lemma_dec_val_prefix_le(s: Seq<char>, k: int)
    requires
        all_digits(s),
        0 <= k <= s.len(),
    ensures
        dec_val(s.take(k)) <= dec_val(s),
    decreases s.len(),
{
    if k == s.len() {
        assert(s.take(k) =~= s);
    } else {
        assert(all_digits(s.drop_last()));
        assert(s.drop_last().take(k) =~= s.take(k));
        lemma_dec_val_prefix_le(s.drop_last(), k);
        lemma_dec_val_nonneg(s.drop_last());
    }
}

impl FromField for u32 {
    /// Conversion succeeds exactly on the tokens that `u32_field` accepts.
    open spec fn spec_accepts(s: Seq<char>) -> bool {
        u32_field(s) is Some
    }

    /// The value is the one `u32_field` gives.
    open spec fn spec_value(s: Seq<char>, v: u32) -> bool {
        u32_field(s) == Some(v)
    }

    fn from_field(s: &str) -> (r: Option<u32>) {
        let n = s.unicode_len();
        let mut start: usize = 0;
        if n > 0 && s.get_char(0) == '+' {
            start = 1;
        }
        let ghost d = if start == 1 {
            s@.drop_first()
        } else {
            s@
        };
        proof {
            assert(start == 1 ==> d =~= s@.skip(1));
        }
        if start >= n {
            return None;
        }
        let mut acc: u64 = 0;
        let mut j: usize = start;
        while j < n
            invariant
                n == s@.len(),
                start <= 1,
                start <= j <= n,
                start == 1 ==> n > 0 && s@[0] == '+' && d == s@.skip(1),
                start == 0 ==> d == s@ && !(n > 0 && s@[0] == '+'),
                d.len() == n - start,
                all_digits(d.take(j - start)),
                acc == dec_val(d.take(j - start)),
                acc <= u32::MAX,
            decreases n - j,
        {
            let c = s.get_char(j);
            proof {
                assert(d[j - start] == s@[j as int]);
            }
            if c < '0' || c > '9' {
                proof {
                    assert(!is_digit(d[j - start]));
                    assert(!all_digits(d));
                    assert(u32_field(s@) is None);
                }
                return None;
            }
            let ghost k: int = j as int - start as int;
            proof {
                assert(d.take(k + 1).drop_last() =~= d.take(k));
                assert(d.take(k + 1).last() == d[k]);
                assert(all_digits(d.take(k + 1)));
            }
            acc = acc * 10 + ((c as u32 - '0' as u32) as u64);
            if acc > u32::MAX as u64 {
                proof {
                    if all_digits(d) {
                        lemma_dec_val_prefix_le(d, k + 1);
                    }
                    assert(u32_field(s@) is None);
                }
                return None;
            }
            j = j + 1;
        }
        proof {
            assert(d.take(n - start) =~= d);
            assert(u32_field(s@) == Some(acc as u32));
        }
        Some(acc as u32)
    }
}

} // verus!
