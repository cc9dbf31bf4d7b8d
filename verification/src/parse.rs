use vstd::prelude::*;
use vstd::string::StringSliceAdditionalSpecFns;

verus! {

/// The byte prints a decimal digit.
pub open spec fn is_digit_byte(b: u8) -> bool {
    48 <= b <= 57
}

/// The number a string of decimal digit bytes denotes, most significant
/// digit first.
pub open spec fn digits_value(s: Seq<u8>) -> int
    decreases s.len(),
{
    if s.len() == 0 {
        0
    } else {
        digits_value(s.drop_last()) * 10 + (s.last() - 48)
    }
}

/// The digits of a number, after an optional leading plus sign.
pub open spec fn spec_number_body(s: Seq<u8>) -> Seq<u8> {
    if s.len() > 0 && s[0] == 43 {
        s.drop_first()
    } else {
        s
    }
}

/// The bytes spell an unsigned decimal number that fits in a `u64`: at least
/// one digit after the optional sign, nothing but digits, and a value within
/// range.
pub open spec fn spec_valid_u64(s: Seq<u8>) -> bool {
    let body = spec_number_body(s);
    &&& body.len() > 0
    &&& forall|i: int| 0 <= i < body.len() ==> is_digit_byte(#[trigger] body[i])
    &&& digits_value(body) <= u64::MAX
}

/// A digit string never denotes a negative number.
proof fn lemma_digits_value_nonneg(s: Seq<u8>)
    requires
        forall|i: int| 0 <= i < s.len() ==> is_digit_byte(#[trigger] s[i]),
    ensures
        digits_value(s) >= 0,
    decreases s.len(),
{
    if s.len() > 0 {
        lemma_digits_value_nonneg(s.drop_last());
    }
}

/// Appending digits never shrinks the denoted number.
proof fn lemma_digits_value_monotone(s: Seq<u8>, i: int)
    requires
        forall|i: int| 0 <= i < s.len() ==> is_digit_byte(#[trigger] s[i]),
        0 <= i <= s.len(),
    ensures
        digits_value(s.take(i)) <= digits_value(s),
    decreases s.len() - i,
{
    if i < s.len() {
        lemma_digits_value_monotone(s, i + 1);
        let t = s.take(i + 1);
        assert(t.drop_last() =~= s.take(i));
        lemma_digits_value_nonneg(s.take(i));
        assert(digits_value(t) == digits_value(s.take(i)) * 10 + (t.last() - 48));
        assert(digits_value(s.take(i)) * 10 >= digits_value(s.take(i))) by (nonlinear_arith)
            requires
                digits_value(s.take(i)) >= 0,
        ;
    } else {
        assert(s.take(i) =~= s);
    }
}

/// Parse an unsigned decimal number, as the standard grammar for `u64` reads
/// it: an optional leading plus sign, then at least one digit, and a value
/// that fits. Exactly the strings that grammar accepts parse; everything
/// else yields `None`.
pub fn parse_u64(s: &str) -> (r: Option<u64>)
    ensures
        r is Some <==> spec_valid_u64(s.spec_bytes()),
        r matches Some(v) ==> v == digits_value(spec_number_body(s.spec_bytes())),
{
    let bytes = s.as_bytes();
    let ghost body = spec_number_body(s.spec_bytes());
    let start: usize = if bytes.len() > 0 && bytes[0] == 43 {
        1
    } else {
        0
    };
    proof {
        assert(body =~= bytes@.subrange(start as int, bytes@.len() as int));
    }
    if bytes.len() == start {
        return None;
    }
    let mut acc: u64 = 0;
    let mut i: usize = start;
    while i < bytes.len()
        invariant
            start <= i <= bytes@.len(),
            start <= 1,
            body == spec_number_body(s.spec_bytes()),
            body == bytes@.subrange(start as int, bytes@.len() as int),
            bytes@ == s.spec_bytes(),
            forall|a: int| 0 <= a < i - start ==> is_digit_byte(#[trigger] body[a]),
            acc == digits_value(body.take(i - start)),
        decreases bytes@.len() - i,
    {
        let b = bytes[i];
        if b < 48 || b > 57 {
            proof {
                assert(body[i - start] == b);
                assert(!spec_valid_u64(s.spec_bytes()));
            }
            return None;
        }
        proof {
            assert(body.take(i + 1 - start).drop_last() =~= body.take(i - start));
            assert(body.take(i + 1 - start).last() == b);
        }
        let next = match acc.checked_mul(10) {
            Some(x) => x,
            None => {
                proof {
                    overflow_means_invalid(body, (i - start) as int, acc as int * 10);
                }
                return None;
            },
        };
        let next = match next.checked_add((b - 48) as u64) {
            Some(x) => x,
            None => {
                proof {
                    overflow_means_invalid(body, (i - start) as int, acc as int * 10 + (b - 48));
                }
                return None;
            },
        };
        acc = next;
        i = i + 1;
    }
    proof {
        assert(body.take(bytes@.len() - start) =~= body);
        lemma_digits_value_nonneg(body);
    }
    Some(acc)
}

/// If the number read so far, extended by its next digit, already exceeds
/// range, the whole digit string does.
proof fn overflow_means_invalid(body: Seq<u8>, k: int, grown: int)
    requires
        0 <= k < body.len(),
        forall|a: int| 0 <= a <= k ==> is_digit_byte(#[trigger] body[a]),
        grown <= digits_value(body.take(k)) * 10 + (body[k] - 48),
        grown > u64::MAX,
    ensures
        !(forall|i: int| 0 <= i < body.len() ==> is_digit_byte(#[trigger] body[i])) || digits_value(
            body,
        ) > u64::MAX,
{
    if forall|i: int| 0 <= i < body.len() ==> is_digit_byte(#[trigger] body[i]) {
        lemma_digits_value_monotone(body, k + 1);
        let t = body.take(k + 1);
        assert(t.drop_last() =~= body.take(k));
        assert(digits_value(t) == digits_value(body.take(k)) * 10 + (t.last() - 48));
        assert(digits_value(t) >= digits_value(body.take(k)) * 10);
    }
}

} // verus!
