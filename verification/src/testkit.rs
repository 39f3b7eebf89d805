//! Reading a server's first reply, for a readiness probe.
//!
//! A Postgres that is still starting accepts connections and answers a
//! startup packet with an `ErrorResponse` carrying SQLSTATE `57P03`. A probe
//! that accepts any reply reports ready too early; one that treats that error
//! as a failure gives up on a server about to work.
use vstd::prelude::*;
use vstd::string::StringSliceAdditionalSpecFns;

use crate::text::{str_from_utf8, bytes_eq, find_byte, lemma_find_byte, exec_find_byte};

verus! {

/// The SQLSTATE a Postgres sends while it is still starting.
pub const STARTING_UP: &'static str = "57P03";

/// What a probe made of a server's reply.
#[derive(Clone, Copy, Debug, PartialEq, Eq, Structural)]
pub enum Readiness {
    /// The server answered as a working server would.
    Ready,
    /// The server answered, but it is still coming up. Retry.
    NotYet,
    /// The server said something a probe should not paper over.
    Failed,
}

/// Where the `C` field's text lies in an `ErrorResponse` body, reading its
/// type-tagged, null-terminated fields from position `i`: `None` at a zero
/// type byte, at the end, or at a field with no terminator.
pub open spec fn code_field(body: Seq<u8>, i: int) -> Option<(int, int)>
    decreases body.len() - i,
{
    if i < 0 || i >= body.len() || body[i] == 0 {
        None
    } else {
        proof {
            lemma_find_byte(body, 0, i + 1);
        }
        match find_byte(body, 0, i + 1) {
            None => None,
            Some(end) => if body[i] == 0x43 {
                Some((i + 1, end))
            } else if end >= i {
                code_field(body, end + 1)
            } else {
                None
            },
        }
    }
}

/// The `C` field of an `ErrorResponse` body, when it is there and is UTF-8.
pub open spec fn spec_error_code(body: Seq<u8>) -> Option<Seq<u8>> {
    match code_field(body, 0) {
        Some((a, e)) => if vstd::utf8::valid_utf8(body.subrange(a, e)) {
            Some(body.subrange(a, e))
        } else {
            None
        },
        None => None,
    }
}

/// What a reply with this tag and body means: an `Authentication` message is
/// ready, an `ErrorResponse` is not yet ready when its code is the starting-up
/// one and a failure otherwise, and anything else is retried.
pub open spec fn spec_readiness(tag: u8, body: Seq<u8>) -> Readiness {
    if tag == 0x52 {
        Readiness::Ready
    } else if tag == 0x45 {
        if spec_error_code(body) == Some(STARTING_UP.spec_bytes()) {
            Readiness::NotYet
        } else {
            Readiness::Failed
        }
    } else {
        Readiness::NotYet
    }
}

/// Extracts the `C` field from an `ErrorResponse` body.
pub fn find_error_code(body: &[u8]) -> (r: Option<&str>)
    ensures
        match spec_error_code(body@) {
            Some(code) => r matches Some(s) && s.spec_bytes() == code,
            None => r is None,
        },
{
    let mut i: usize = 0;
    loop
        invariant
            i <= body@.len(),
            code_field(body@, 0) == code_field(body@, i as int),
        decreases body@.len() - i,
    {
        if i >= body.len() || body[i] == 0 {
            return None;
        }
        proof {
            lemma_find_byte(body@, 0, i + 1);
        }
        match exec_find_byte(body, 0, i + 1) {
            None => return None,
            Some(end) => {
                if body[i] == 0x43 {
                    return str_from_utf8(vstd::slice::slice_subrange(body, i + 1, end));
                }
                i = end + 1;
            },
        }
    }
}

/// Classifies the first byte of a reply to a startup packet.
pub fn classify_startup_reply(tag: u8, body: &[u8]) -> (r: Readiness)
    ensures
        r == spec_readiness(tag, body@),
{
    if tag == 0x52 {
        Readiness::Ready
    } else if tag == 0x45 {
        let starting = match find_error_code(body) {
            Some(code) => bytes_eq(code.as_bytes(), STARTING_UP.as_bytes()),
            None => false,
        };
        if starting {
            Readiness::NotYet
        } else {
            Readiness::Failed
        }
    } else {
        Readiness::NotYet
    }
}

} // verus!
