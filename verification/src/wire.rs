//! The update channel's wire format.
//!
//! One message arrives per connection, complete when the peer closes its
//! write side: a maximal leading run of ASCII decimal digits naming the
//! focus line, one delimiter byte that is discarded, and the remaining
//! bytes as the full replacement document body, taken verbatim.

use vstd::prelude::*;
use vstd::utf8::decode_utf8;
use vstd::utf8::valid_utf8;

verus! {

/// Why one connection's message was dropped. The listener keeps serving
/// subsequent connections whichever of these occurs.
#[derive(Debug, Clone, Copy, PartialEq, Eq, Structural)]
pub enum DecodeError {
    /// The message starts with no decimal digit.
    EmptyLineNumber,
    /// The digit run names a number no focus line can hold.
    LineNumberOverflow,
    /// The message ends inside the digit run, so no delimiter byte follows.
    MissingDelimiter,
    /// The body bytes are not text.
    BodyNotText,
}

/// An ASCII decimal digit.
pub open spec fn is_digit(b: u8) -> bool {
    48 <= b && b <= 57
}

/// The length of the maximal leading run of decimal digits.
pub open spec fn digit_run_len(s: Seq<u8>) -> nat
    decreases s.len(),
{
    if s.len() == 0 || !is_digit(s[0]) {
        0
    } else {
        1 + digit_run_len(s.drop_first())
    }
}

/// The number a run of digit bytes spells in decimal.
pub open spec fn dec_val(s: Seq<u8>) -> int
    decreases s.len(),
{
    if s.len() == 0 {
        0
    } else {
        dec_val(s.drop_last()) * 10 + s.last() - 48
    }
}

/// What a complete message decodes to: the focus line and the body text,
/// or the exact reason the message is dropped.
pub open spec fn decode_spec(msg: Seq<u8>) -> Result<(u32, Seq<char>), DecodeError> {
    let k = digit_run_len(msg) as int;
    if k == 0 {
        Result::Err(DecodeError::EmptyLineNumber)
    } else if dec_val(msg.take(k)) > u32::MAX {
        Result::Err(DecodeError::LineNumberOverflow)
    } else if k == msg.len() {
        Result::Err(DecodeError::MissingDelimiter)
    } else if !valid_utf8(msg.skip(k + 1)) {
        Result::Err(DecodeError::BodyNotText)
    } else {
        Result::Ok((dec_val(msg.take(k)) as u32, decode_utf8(msg.skip(k + 1))))
    }
}

proof fn lemma_digit_run_at(s: Seq<u8>, k: int)
    requires
        0 <= k <= s.len(),
        forall|j: int| 0 <= j < k ==> is_digit(s[j]),
        k < s.len() ==> !is_digit(s[k]),
    ensures
        digit_run_len(s) == k,
    decreases s.len(),
{
    if s.len() == 0 || k == 0 {
    } else {
        assert(forall|j: int| 0 <= j < s.drop_first().len() ==> s.drop_first()[j] == s[j + 1]);
        lemma_digit_run_at(s.drop_first(), k - 1);
    }
}

proof fn lemma_dec_val_nonneg(s: Seq<u8>)
    requires
        forall|i: int| 0 <= i < s.len() ==> is_digit(s[i]),
    ensures
        dec_val(s) >= 0,
    decreases s.len(),
{
    if s.len() > 0 {
        assert(forall|i: int| 0 <= i < s.drop_last().len() ==> s.drop_last()[i] == s[i]);
        lemma_dec_val_nonneg(s.drop_last());
    }
}

/// A longer digit prefix never spells a smaller number.
proof fn lemma_dec_val_prefix_le(s: Seq<u8>, i: int, j: int)
    requires
        0 <= i <= j <= s.len(),
        forall|x: int| 0 <= x < j ==> is_digit(s[x]),
    ensures
        dec_val(s.take(i)) <= dec_val(s.take(j)),
    decreases j - i,
{
    if i < j {
        lemma_dec_val_prefix_le(s, i, j - 1);
        assert(s.take(j).drop_last() =~= s.take(j - 1));
        assert(s.take(j).last() == s[j - 1]);
        assert(forall|x: int| 0 <= x < s.take(j - 1).len() ==> s.take(j - 1)[x] == s[x]);
        lemma_dec_val_nonneg(s.take(j - 1));
    }
}

/// Relies on `String::from_utf8` of std: it accepts exactly the byte
/// sequences that are valid UTF-8, and decodes those to their text.
#[verifier::external_body]
fn bytes_to_string(v: Vec<u8>) -> (r: Option<String>)
    ensures
        r is Some <==> valid_utf8(v@),
        r matches Some(s) ==> s@ == decode_utf8(v@),
{
    match String::from_utf8(v) {
        Result::Ok(s) => Option::Some(s),
        Result::Err(_) => Option::None,
    }
}

/// Decodes one connection's accumulated message into the focus line and
/// the replacement body, exactly as `decode_spec` says, reporting the
/// exact reason when the message is dropped.
pub fn decode(msg: &Vec<u8>) -> (r: Result<(u32, String), DecodeError>)
    ensures
        decode_spec(msg@) matches Ok(v) ==> r matches Ok(o) && o.0 == v.0 && o.1@ == v.1,
        decode_spec(msg@) matches Err(e) ==> r == Result::<(u32, String), DecodeError>::Err(e),
{
    let n = msg.len();
    let mut k: usize = 0;
    while k < n && 48 <= msg[k] && msg[k] <= 57
        invariant
            k <= n == msg@.len(),
            forall|j: int| 0 <= j < k ==> is_digit(msg@[j]),
        decreases n - k,
    {
        k = k + 1;
    }
    proof {
        lemma_digit_run_at(msg@, k as int);
    }
    if k == 0 {
        return Result::Err(DecodeError::EmptyLineNumber);
    }
    let mut acc: u32 = 0;
    let mut i: usize = 0;
    while i < k
        invariant
            i <= k <= n == msg@.len(),
            forall|j: int| 0 <= j < k ==> is_digit(msg@[j]),
            digit_run_len(msg@) == k,
            acc == dec_val(msg@.take(i as int)),
        decreases k - i,
    {
        let d = msg[i] - 48;
        proof {
            assert(msg@.take(i as int + 1).drop_last() =~= msg@.take(i as int));
            assert(msg@.take(i as int + 1).last() == msg@[i as int]);
        }
        let m = match acc.checked_mul(10) {
            Option::Some(m) => m,
            Option::None => {
                proof {
                    lemma_dec_val_prefix_le(msg@, i as int + 1, k as int);
                }
                return Result::Err(DecodeError::LineNumberOverflow);
            },
        };
        acc = match m.checked_add(d as u32) {
            Option::Some(a) => a,
            Option::None => {
                proof {
                    lemma_dec_val_prefix_le(msg@, i as int + 1, k as int);
                }
                return Result::Err(DecodeError::LineNumberOverflow);
            },
        };
        i = i + 1;
    }
    if k == n {
        return Result::Err(DecodeError::MissingDelimiter);
    }
    let mut body_bytes: Vec<u8> = Vec::new();
    let mut b: usize = k + 1;
    while b < n
        invariant
            k + 1 <= b <= n == msg@.len(),
            body_bytes@ == msg@.subrange(k as int + 1, b as int),
        decreases n - b,
    {
        body_bytes.push(msg[b]);
        proof {
            assert(body_bytes@ =~= msg@.subrange(k as int + 1, b as int + 1));
        }
        b = b + 1;
    }
    proof {
        assert(body_bytes@ =~= msg@.skip(k as int + 1));
    }
    match bytes_to_string(body_bytes) {
        Option::Some(body) => Result::Ok((acc, body)),
        Option::None => Result::Err(DecodeError::BodyNotText),
    }
}

} // verus!
