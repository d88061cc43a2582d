//! Spans of time written as minutes and seconds, `MM:SS`.

use crate::text::{find_byte, first_index};
use crate::time::{seconds, Duration};
use vstd::prelude::*;
use vstd::slice::slice_subrange;
use vstd::string::StringSliceAdditionalSpecFns;

verus! {

/// Why a text is no span of time.
#[derive(Clone, Copy, Debug, PartialEq, Eq, Structural)]
pub enum MmssError {
    /// There is no `:` between minutes and seconds.
    MissingSplitter,
    /// What stands before the `:` is no number.
    BadMinutes,
    /// What stands after the `:` is no number.
    BadSeconds,
    /// The span has more seconds than 64 bits can count.
    TooLong,
}

/// One of the ten digits.
pub open spec fn is_digit(byte: u8) -> bool {
    0x30 <= byte <= 0x39
}

/// Every byte is a digit.
pub open spec fn all_digits(bytes: Seq<u8>) -> bool {
    forall|i: int| 0 <= i < bytes.len() ==> is_digit(#[trigger] bytes[i])
}

/// The number that digits spell in base ten.
pub open spec fn digits_value(digits: Seq<u8>) -> nat
    decreases digits.len(),
{
    if digits.len() == 0 {
        0
    } else {
        digits_value(digits.drop_last()) * 10 + (digits.last() - 0x30) as nat
    }
}

/// The text without one `+` in front.
pub open spec fn unsigned_part(text: Seq<u8>) -> Seq<u8> {
    if text.len() > 0 && text[0] == 0x2b {
        text.drop_first()
    } else {
        text
    }
}

/// The number that a text spells, as `str::parse::<u64>` reads it: one or
/// more digits, with or without a `+` in front, that fit in 64 bits.
pub open spec fn number_of(text: Seq<u8>) -> Option<u64> {
    let digits = unsigned_part(text);
    if digits.len() > 0 && all_digits(digits) && digits_value(digits) <= u64::MAX {
        Some(digits_value(digits) as u64)
    } else {
        None
    }
}

/// The seconds that a text of the form `MM:SS` spells: the minutes before
/// the first `:` and the seconds after it.
pub open spec fn mmss_seconds(text: Seq<u8>) -> Result<u64, MmssError> {
    match first_index(text, 0x3a) {
        None => Err(MmssError::MissingSplitter),
        Some(colon) => match number_of(text.take(colon)) {
            None => Err(MmssError::BadMinutes),
            Some(minutes) => match number_of(text.skip(colon + 1)) {
                None => Err(MmssError::BadSeconds),
                Some(secs) => if minutes * 60 + secs <= u64::MAX {
                    Ok((minutes * 60 + secs) as u64)
                } else {
                    Err(MmssError::TooLong)
                },
            },
        },
    }
}

/// Digits in front spell no more than all of the digits.
proof fn lemma_digits_grow(digits: Seq<u8>, k: int)
    requires
        0 <= k <= digits.len(),
        all_digits(digits),
    ensures
        digits_value(digits.take(k)) <= digits_value(digits),
    decreases digits.len() - k,
{
    if k < digits.len() {
        lemma_digits_grow(digits, k + 1);
        let longer = digits.take(k + 1);
        assert(longer.drop_last() =~= digits.take(k));
        assert(is_digit(digits[k]));
        assert(longer.last() == digits[k]);
    } else {
        assert(digits.take(k) =~= digits);
    }
}

/// The number that digits spell, if they are digits and fit in 64 bits.
fn parse_digits(digits: &[u8]) -> (r: Option<u64>)
    ensures
        r is Some <==> all_digits(digits@) && digits_value(digits@) <= u64::MAX,
        r matches Some(n) ==> n == digits_value(digits@),
{
    let mut value: u64 = 0;
    let mut i: usize = 0;
    while i < digits.len()
        invariant
            i <= digits@.len(),
            all_digits(digits@.take(i as int)),
            value == digits_value(digits@.take(i as int)),
        decreases digits@.len() - i,
    {
        let byte = digits[i];
        let ghost longer = digits@.take(i as int + 1);
        proof {
            assert(longer.drop_last() =~= digits@.take(i as int));
            assert(longer.last() == byte);
        }
        if byte < 0x30 || byte > 0x39 {
            proof {
                if all_digits(digits@) {
                    assert(is_digit(digits@[i as int]));
                }
            }
            return None;
        }
        let next = match value.checked_mul(10) {
            Some(tens) => tens.checked_add((byte - 0x30) as u64),
            None => None,
        };
        match next {
            Some(n) => {
                value = n;
            },
            None => {
                proof {
                    if all_digits(digits@) {
                        lemma_digits_grow(digits@, i as int + 1);
                    }
                }
                return None;
            },
        }
        proof {
            assert forall|j: int| 0 <= j < longer.len() implies is_digit(#[trigger] longer[j]) by {
                if j < i {
                    assert(is_digit(digits@.take(i as int)[j]));
                }
            }
        }
        i += 1;
    }
    proof {
        assert(digits@.take(i as int) =~= digits@);
    }
    Some(value)
}

/// The number that a text spells, as `str::parse::<u64>` reads it.
pub fn parse_number(text: &[u8]) -> (r: Option<u64>)
    ensures
        r == number_of(text@),
{
    let digits = if text.len() > 0 && text[0] == 0x2b {
        slice_subrange(text, 1, text.len())
    } else {
        text
    };
    if digits.len() == 0 {
        return None;
    }
    parse_digits(digits)
}

/// Reads a span of time written as `MM:SS`.
pub fn parse_mmss(text: &str) -> (r: Result<Duration, MmssError>)
    ensures
        r is Ok <==> mmss_seconds(text.spec_bytes()) is Ok,
        r matches Ok(d) ==> mmss_seconds(text.spec_bytes()) matches Ok(n) && d.as_nanos() == seconds(n as nat),
        r matches Err(e) ==> mmss_seconds(text.spec_bytes()) == Err::<u64, MmssError>(e),
{
    let bytes = text.as_bytes();
    let colon = match find_byte(bytes, 0x3a) {
        Some(at) => at,
        None => {
            return Err(MmssError::MissingSplitter);
        },
    };
    let len = bytes.len();
    let minutes = match parse_number(slice_subrange(bytes, 0, colon)) {
        Some(n) => n,
        None => {
            return Err(MmssError::BadMinutes);
        },
    };
    let secs = match parse_number(slice_subrange(bytes, colon + 1, len)) {
        Some(n) => n,
        None => {
            return Err(MmssError::BadSeconds);
        },
    };
    let total = match minutes.checked_mul(60) {
        Some(m) => m.checked_add(secs),
        None => None,
    };
    match total {
        Some(n) => Ok(Duration::from_secs(n)),
        None => Err(MmssError::TooLong),
    }
}

} // verus!
