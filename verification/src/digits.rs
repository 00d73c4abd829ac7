use vstd::prelude::*;
use vstd::string::*;

verus! {

/// A decimal digit.
pub open spec fn is_digit(c: char) -> bool {
    '0' <= c && c <= '9'
}

/// Every character of the run is a decimal digit.
pub open spec fn all_digits(s: Seq<char>) -> bool {
    forall|i: int| 0 <= i < s.len() ==> is_digit(#[trigger] s[i])
}

/// The number a run of digits denotes in base ten (most significant first).
pub open spec fn dec_value(s: Seq<char>) -> int
    decreases s.len(),
{
    if s.len() == 0 {
        0
    } else {
        dec_value(s.drop_last()) * 10 + (s.last() as u32 - '0' as u32)
    }
}

/// Ten to the `n`.
pub open spec fn pow10(n: nat) -> int
    decreases n,
{
    if n == 0 {
        1
    } else {
        10 * pow10((n - 1) as nat)
    }
}

/// A run of `n` digits denotes a number below ten to the `n`.
pub proof fn lemma_dec_value_bounds(s: Seq<char>)
    requires
        all_digits(s),
    ensures
        0 <= dec_value(s) < pow10(s.len()),
    decreases s.len(),
{
    if s.len() > 0 {
        assert(all_digits(s.drop_last()));
        lemma_dec_value_bounds(s.drop_last());
        assert(is_digit(s.last()));
    }
}

/// Dropping trailing digits never increases the denoted number.
pub proof fn lemma_dec_value_prefix_le(s: Seq<char>, i: int)
    requires
        all_digits(s),
        0 <= i <= s.len(),
    ensures
        dec_value(s.take(i)) <= dec_value(s),
    decreases s.len() - i,
{
    if i == s.len() {
        assert(s.take(i) =~= s);
    } else {
        assert(s.take(i + 1).drop_last() =~= s.take(i));
        assert(all_digits(s.take(i)));
        lemma_dec_value_bounds(s.take(i));
        assert(is_digit(s[i]));
        assert(dec_value(s.take(i)) <= dec_value(s.take(i + 1)));
        lemma_dec_value_prefix_le(s, i + 1);
    }
}

/// A nonempty run of digits denoting a number that fits in a `u64`.
pub open spec fn u64_text(s: Seq<char>) -> bool {
    s.len() > 0 && all_digits(s) && dec_value(s) <= u64::MAX
}

/// Reads a base-ten number. Accepts exactly the nonempty all-digit strings
/// whose value fits in a `u64`; anything else — empty text, a sign, any
/// other stray character, or a value past `u64::MAX` — is refused.
pub fn parse_u64_digits(text: &str) -> (r: Option<u64>)
    ensures
        u64_text(text@) ==> r == Some(dec_value(text@) as u64),
        !u64_text(text@) ==> r is None,
{
    let n = text.unicode_len();
    if n == 0 {
        return None;
    }
    let mut acc: u64 = 0;
    let mut i: usize = 0;
    while i < n
        invariant
            0 < n == text@.len(),
            i <= n,
            all_digits(text@.take(i as int)),
            acc == dec_value(text@.take(i as int)),
        decreases n - i,
    {
        let c = text.get_char(i);
        if !('0' <= c && c <= '9') {
            assert(!is_digit(text@[i as int]));
            return None;
        }
        let d: u64 = (c as u32 - '0' as u32) as u64;
        proof {
            assert(text@.take(i + 1).drop_last() =~= text@.take(i as int));
            assert(all_digits(text@.take(i + 1)));
        }
        let acc10 = match acc.checked_mul(10) {
            Some(v) => v,
            None => {
                proof {
                    assert(dec_value(text@.take(i + 1)) > u64::MAX);
                    if all_digits(text@) {
                        lemma_dec_value_prefix_le(text@, i + 1);
                    }
                }
                return None;
            },
        };
        let new_acc = match acc10.checked_add(d) {
            Some(v) => v,
            None => {
                proof {
                    assert(dec_value(text@.take(i + 1)) > u64::MAX);
                    if all_digits(text@) {
                        lemma_dec_value_prefix_le(text@, i + 1);
                    }
                }
                return None;
            },
        };
        acc = new_acc;
        i = i + 1;
    }
    proof {
        assert(text@.take(n as int) =~= text@);
    }
    Some(acc)
}

} // verus!
