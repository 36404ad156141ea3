//! Document identity: a page's id is an opaque string toward the document
//! source, but the vector index stores points under unsigned integers. A
//! page can be indexed only when its id is the decimal notation of a `u64`;
//! anything else is a typed ingestion failure, never a crash.

use vstd::prelude::*;

verus! {

/// A decimal digit.
pub open spec fn is_digit_char(c: char) -> bool {
    '0' <= c && c <= '9'
}

/// The numeric value of a decimal digit.
pub open spec fn digit_val(c: char) -> int {
    c as int - '0' as int
}

/// Every character of `s` is a decimal digit.
pub open spec fn all_digits(s: Seq<char>) -> bool {
    forall|i: int| 0 <= i < s.len() ==> is_digit_char(#[trigger] s[i])
}

/// The value of `s` read as a decimal numeral.
pub open spec fn dec_val(s: Seq<char>) -> int
    decreases s.len(),
{
    if s.len() == 0 {
        0
    } else {
        dec_val(s.drop_last()) * 10 + digit_val(s.last())
    }
}

/// The point id that a document id string denotes: its value as a decimal
/// numeral, defined exactly when the string is non-empty, all digits, and
/// the value fits in a `u64`.
pub open spec fn parse_id_spec(s: Seq<char>) -> Option<u64> {
    if s.len() > 0 && all_digits(s) && dec_val(s) <= u64::MAX as int {
        Some(dec_val(s) as u64)
    } else {
        None
    }
}

proof fn lemma_dec_val_nonneg(s: Seq<char>)
    requires
        all_digits(s),
    ensures
        dec_val(s) >= 0,
    decreases s.len(),
{
    if s.len() > 0 {
        assert(all_digits(s.drop_last()));
        lemma_dec_val_nonneg(s.drop_last());
        assert(dec_val(s.drop_last()) * 10 >= 0) by (nonlinear_arith)
            requires dec_val(s.drop_last()) >= 0;
        assert(is_digit_char(s.last()));
    }
}

/// Appending digits never shrinks the value of a numeral.
proof fn lemma_dec_val_prefix_le(s: Seq<char>, i: int)
    requires
        all_digits(s),
        0 <= i <= s.len(),
    ensures
        dec_val(s.take(i)) <= dec_val(s),
    decreases s.len() - i,
{
    if i < s.len() {
        lemma_dec_val_prefix_le(s, i + 1);
        let t = s.take(i + 1);
        assert(t.drop_last() =~= s.take(i));
        assert(all_digits(s.take(i)));
        lemma_dec_val_nonneg(s.take(i));
        assert(dec_val(t) == dec_val(s.take(i)) * 10 + digit_val(t.last()));
        assert(dec_val(s.take(i)) * 10 >= dec_val(s.take(i))) by (nonlinear_arith)
            requires dec_val(s.take(i)) >= 0;
        assert(is_digit_char(t.last()));
    } else {
        assert(s.take(i) =~= s);
    }
}

/// Reads a document id as the decimal notation of a `u64`. Returns the
/// point id exactly when the string is non-empty, consists of digits only,
/// and its value fits; every other string is rejected with `None`.
pub fn parse_doc_id(s: &str) -> (r: Option<u64>)
    ensures
        r == parse_id_spec(s@),
{
    let v = crate::text::chars_of(s);
    let n = v.len();
    if n == 0 {
        return None;
    }
    let mut acc: u64 = 0;
    let mut i: usize = 0;
    while i < n
        invariant
            v@ == s@,
            n == v@.len(),
            0 < n,
            i <= n,
            all_digits(v@.take(i as int)),
            acc as int == dec_val(v@.take(i as int)),
        decreases n - i,
    {
        proof {
            assert(v@.take(i + 1).drop_last() =~= v@.take(i as int));
            assert(v@.take(i + 1).last() == v@[i as int]);
        }
        let c = v[i];
        if c < '0' || c > '9' {
            proof {
                assert(!is_digit_char(v@[i as int]));
                assert(!all_digits(v@));
            }
            return None;
        }
        let d = (c as u32 - 48) as u64;
        proof {
            assert(d as int == digit_val(v@[i as int]));
        }
        let next = match acc.checked_mul(10) {
            Some(m) => m.checked_add(d),
            None => None,
        };
        match next {
            Some(x) => {
                acc = x;
            },
            None => {
                proof {
                    assert(dec_val(v@.take(i + 1)) > u64::MAX as int);
                    if all_digits(v@) {
                        lemma_dec_val_prefix_le(v@, i + 1);
                    }
                }
                return None;
            },
        }
        i = i + 1;
    }
    proof {
        assert(v@.take(n as int) =~= v@);
    }
    Some(acc)
}

} // verus!
