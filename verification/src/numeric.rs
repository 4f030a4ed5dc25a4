//! Decimal coercion for the numeric row fields: a field is accepted exactly
//! when it is a non-empty run of ASCII digits whose value fits in a `u32`.

use vstd::prelude::*;

verus! {

/// An ASCII decimal digit, `'0'` through `'9'`.
pub open spec fn is_digit_char(c: char) -> bool {
    48 <= c as u32 <= 57
}

/// The numeric value of one digit character.
pub open spec fn digit_value(c: char) -> int {
    c as u32 - 48
}

/// The base-10 value of a digit sequence (most significant digit first).
pub open spec fn digits_value(s: Seq<char>) -> int
    decreases s.len(),
{
    if s.len() == 0 {
        0
    } else {
        digits_value(s.drop_last()) * 10 + digit_value(s.last())
    }
}

/// Whether a field parses as a non-negative base-10 integer that fits in `u32`:
/// non-empty, all digits, value in range.
pub open spec fn is_u32_digits(s: Seq<char>) -> bool {
    &&& s.len() > 0
    &&& (forall|i: int| 0 <= i < s.len() ==> is_digit_char(#[trigger] s[i]))
    &&& digits_value(s) <= u32::MAX
}

proof fn lemma_digits_value_nonneg(s: Seq<char>)
    requires
        forall|i: int| 0 <= i < s.len() ==> is_digit_char(#[trigger] s[i]),
    ensures
        digits_value(s) >= 0,
    decreases s.len(),
{
    if s.len() > 0 {
        assert(forall|i: int|
            0 <= i < s.drop_last().len() ==> is_digit_char(#[trigger] s.drop_last()[i]));
        lemma_digits_value_nonneg(s.drop_last());
    }
}

/// Over an all-digit sequence, the value of a prefix never exceeds the value
/// of the whole: appending digits cannot decrease the value.
proof fn lemma_digits_value_prefix_le(s: Seq<char>, k: int)
    requires
        0 <= k <= s.len(),
        forall|i: int| 0 <= i < s.len() ==> is_digit_char(#[trigger] s[i]),
    ensures
        digits_value(s.take(k)) <= digits_value(s),
    decreases s.len() - k,
{
    if k < s.len() {
        assert(s.take(k + 1).drop_last() =~= s.take(k));
        assert(s.take(k + 1).last() == s[k]);
        assert(forall|i: int|
            0 <= i < s.take(k).len() ==> is_digit_char(#[trigger] s.take(k)[i]));
        lemma_digits_value_nonneg(s.take(k));
        assert(digits_value(s.take(k + 1))
            == digits_value(s.take(k)) * 10 + digit_value(s[k]));
        assert(digits_value(s.take(k)) <= digits_value(s.take(k + 1)));
        lemma_digits_value_prefix_le(s, k + 1);
    } else {
        assert(s.take(k) =~= s);
    }
}

/// The digit run of a numeral: an optional single leading `+` sign is
/// tolerated, as `u32` parsing in Rust tolerates it.
pub open spec fn numeral_body(s: Seq<char>) -> Seq<char> {
    if s.len() > 0 && s[0] == '+' {
        s.drop_first()
    } else {
        s
    }
}

/// Whether a field parses as a non-negative `u32` numeral: after the optional
/// sign, non-empty, all digits, value in range.
pub open spec fn is_u32_numeral(s: Seq<char>) -> bool {
    is_u32_digits(numeral_body(s))
}

/// The value of a `u32` numeral.
pub open spec fn numeral_value(s: Seq<char>) -> int {
    digits_value(numeral_body(s))
}

/// Parses a non-negative base-10 `u32`. Returns `Some` exactly on inputs that
/// are, after an optional leading `+`, non-empty, all digits, and within
/// `u32` range; never panics, never truncates an out-of-range value.
pub fn parse_u32(s: &str) -> (r: Option<u32>)
    ensures
        r is Some <==> is_u32_numeral(s@),
        r matches Some(v) ==> v as int == numeral_value(s@),
{
    let n = s.unicode_len();
    let start: usize = if n > 0 && s.get_char(0) == '+' {
        1
    } else {
        0
    };
    let ghost body = numeral_body(s@);
    proof {
        assert(forall|j: int|
            0 <= j < body.len() ==> body[j] == s@[j + start]);
    }
    if n == start {
        return None;
    }
    let mut acc: u64 = 0;
    let mut i: usize = start;
    while i < n
        invariant
            start <= i <= n,
            n == s@.len(),
            body == numeral_body(s@),
            body.len() == n - start,
            forall|j: int| 0 <= j < body.len() ==> body[j] == s@[j + start],
            forall|j: int| start <= j < i ==> is_digit_char(#[trigger] s@[j]),
            acc as int == digits_value(body.take(i - start)),
            acc <= u32::MAX,
        decreases n - i,
    {
        let c = s.get_char(i);
        let cv = c as u32;
        if cv < 48 || cv > 57 {
            assert(!is_digit_char(body[i - start]));
            return None;
        }
        proof {
            assert(body.take(i - start + 1).drop_last() =~= body.take(i - start));
            assert(body.take(i - start + 1).last() == s@[i as int]);
        }
        acc = acc * 10 + ((cv - 48) as u64);
        if acc > (u32::MAX as u64) {
            proof {
                if is_u32_numeral(s@) {
                    lemma_digits_value_prefix_le(body, i - start + 1);
                }
            }
            return None;
        }
        i = i + 1;
    }
    proof {
        assert(body.take(n - start) =~= body);
        assert(forall|j: int| 0 <= j < body.len() ==> is_digit_char(#[trigger] body[j]));
    }
    Some(acc as u32)
}

} // verus!
