//! The process-wide document state.
//!
//! The current document body and the current focus line are written only
//! by the update channel and read only by the presentation layer. The pair
//! is replaced as one unit: the focus line always refers to the body it
//! was delivered with, and a dropped message leaves the pair untouched.

use vstd::prelude::*;

use crate::wire::decode;
use crate::wire::decode_spec;
use crate::wire::digit_run_len;
use crate::wire::DecodeError;

verus! {

/// The current document body and focus line, always from one update.
#[derive(Debug, Clone)]
pub struct DocumentState {
    pub body: String,
    pub focus_line: u32,
}

/// What one connection's message does to the state: a successful decode
/// replaces body and focus line together; a dropped message changes
/// nothing.
pub open spec fn apply_spec(body: Seq<char>, focus: u32, msg: Seq<u8>) -> (Seq<char>, u32) {
    match decode_spec(msg) {
        Result::Ok(v) => (v.1, v.0),
        Result::Err(_) => (body, focus),
    }
}

impl DocumentState {
    /// The state at startup: an empty body, the focus on the first line.
    pub fn new() -> (r: DocumentState)
        ensures
            r.body@ == Seq::<char>::empty(),
            r.focus_line == 1,
    {
        DocumentState { body: String::new(), focus_line: 1 }
    }

    /// A snapshot read of the current body.
    pub fn current_body(&self) -> (r: &String)
        ensures
            r@ == self.body@,
    {
        &self.body
    }

    /// A snapshot read of the current focus line.
    pub fn current_focus_line(&self) -> (r: u32)
        ensures
            r == self.focus_line,
    {
        self.focus_line
    }

    /// Applies one connection's accumulated message: on a successful
    /// decode the body and the focus line are replaced together; on a
    /// dropped message the state is untouched and the exact reason is
    /// reported.
    pub fn apply_connection(&mut self, msg: &Vec<u8>) -> (r: Result<(), DecodeError>)
        ensures
            final (self).body@ == apply_spec(old(self).body@, old(self).focus_line, msg@).0,
            final (self).focus_line == apply_spec(old(self).body@, old(self).focus_line, msg@).1,
            r is Ok <==> decode_spec(msg@) is Ok,
            r matches Err(e) ==> decode_spec(msg@) == Result::<(u32, Seq<char>), DecodeError>::Err(
                e,
            ),
    {
        match decode(msg) {
            Result::Ok((line, body)) => {
                self.body = body;
                self.focus_line = line;
                Result::Ok(())
            },
            Result::Err(e) => Result::Err(e),
        }
    }
}

/// Law: of two sequential connections the second alone determines the
/// state that follows; nothing of the first update, nor of the state
/// before it, survives or is merged in.
pub proof fn lemma_second_update_wins(b0: Seq<char>, f0: u32, m1: Seq<u8>, m2: Seq<u8>)
    requires
        decode_spec(m2) is Ok,
    ensures
        ({
            let s1 = apply_spec(b0, f0, m1);
            apply_spec(s1.0, s1.1, m2) == (decode_spec(m2)->Ok_0.1, decode_spec(m2)->Ok_0.0)
        }),
{
}

/// Law: a message whose digit run is empty is dropped with a decode
/// failure and leaves any previously stored state unchanged.
pub proof fn lemma_empty_digits_rejected(b0: Seq<char>, f0: u32, m: Seq<u8>)
    requires
        digit_run_len(m) == 0,
    ensures
        decode_spec(m) == Result::<(u32, Seq<char>), DecodeError>::Err(DecodeError::EmptyLineNumber),
        apply_spec(b0, f0, m) == (b0, f0),
{
}

} // verus!
