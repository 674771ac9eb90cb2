//! Run settings: the baud rate, its parsing from text, and the deadline.
use crate::engine::RunError;
use vstd::prelude::*;
use vstd::string::StringSliceAdditionalSpecFns;

verus! {

/// The baud rate used when none is given.
pub const DEFAULT_BAUD: u32 = 9600;

/// How long a run waits for the echo, in milliseconds.
pub const DEFAULT_TIMEOUT_MS: u64 = 4000;

/// An ASCII decimal digit.
pub open spec fn is_digit(b: u8) -> bool {
    48 <= b <= 57
}

/// The number that a sequence of decimal digits writes, most significant first.
pub open spec fn digits_value(s: Seq<u8>) -> nat
    decreases s.len(),
{
    if s.len() == 0 {
        0
    } else {
        digits_value(s.drop_last()) * 10 + (s.last() - 48) as nat
    }
}

/// The digits of an unsigned number's text: an optional leading `+` is dropped.
pub open spec fn unsigned_digits(s: Seq<u8>) -> Seq<u8> {
    if s.len() > 0 && s[0] == 43 {
        s.subrange(1, s.len() as int)
    } else {
        s
    }
}

/// The text is an unsigned decimal number (at least one digit, nothing else
/// but an optional leading `+`).
pub open spec fn is_unsigned_text(s: Seq<u8>) -> bool {
    let d = unsigned_digits(s);
    d.len() > 0 && forall|i: int| 0 <= i < d.len() ==> is_digit(#[trigger] d[i])
}

proof fn lemma_digits_value_grows(s: Seq<u8>, k: int)
    requires
        0 <= k <= s.len(),
        forall|i: int| 0 <= i < s.len() ==> is_digit(#[trigger] s[i]),
    ensures
        digits_value(s.subrange(0, k)) <= digits_value(s),
    decreases s.len() - k,
{
    if k < s.len() {
        lemma_digits_value_grows(s, k + 1);
        assert(s.subrange(0, k + 1).drop_last() =~= s.subrange(0, k));
    } else {
        assert(s.subrange(0, k) =~= s);
    }
}

/// Parses a baud rate: the value of an unsigned decimal text that fits in
/// 32 bits, and `ArgumentParse` for any other text.
pub fn parse_baud(text: &str) -> (r: Result<u32, RunError>)
    ensures
        r is Ok <==> is_unsigned_text(text.spec_bytes()) && digits_value(
            unsigned_digits(text.spec_bytes()),
        ) <= u32::MAX,
        r is Ok ==> r->Ok_0 as nat == digits_value(unsigned_digits(text.spec_bytes())),
        r is Err ==> r->Err_0 == RunError::ArgumentParse,
{
    let bytes = text.as_bytes();
    let ghost d = unsigned_digits(bytes@);
    let mut i: usize = 0;
    if bytes.len() > 0 && bytes[0] == 43u8 {
        i = 1;
    }
    let start = i;
    if start == bytes.len() {
        return Err(RunError::ArgumentParse);
    }
    let mut value: u64 = 0;
    while i < bytes.len()
        invariant
            start <= i <= bytes@.len(),
            start < bytes@.len(),
            bytes@ == text.spec_bytes(),
            d == unsigned_digits(bytes@),
            d == bytes@.subrange(start as int, bytes@.len() as int),
            forall|j: int| 0 <= j < i - start ==> is_digit(#[trigger] d[j]),
            value == digits_value(d.subrange(0, i - start)),
            value <= u32::MAX,
        decreases bytes.len() - i,
    {
        let b = bytes[i];
        if b < 48u8 || b > 57u8 {
            proof {
                assert(d[i - start] == b);
                assert(!is_digit(d[i - start]));
                assert(!is_unsigned_text(bytes@));
            }
            return Err(RunError::ArgumentParse);
        }
        proof {
            assert(d.subrange(0, i + 1 - start).drop_last() =~= d.subrange(0, i - start));
        }
        value = value * 10 + (b - 48u8) as u64;
        if value > 0xffff_ffffu64 {
            proof {
                if forall|j: int| 0 <= j < d.len() ==> is_digit(#[trigger] d[j]) {
                    lemma_digits_value_grows(d, i + 1 - start);
                }
                assert(!(is_unsigned_text(bytes@) && digits_value(d) <= u32::MAX));
            }
            return Err(RunError::ArgumentParse);
        }
        i = i + 1;
    }
    proof {
        assert(d.subrange(0, d.len() as int) =~= d);
    }
    Ok(value as u32)
}

} // verus!
