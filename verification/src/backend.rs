//! Decoding the server messages a proxy reads for itself: the ones that arrive
//! while a connection is being opened, and the error and notice fields.
use vstd::prelude::*;
use vstd::string::StringSliceAdditionalSpecFns;

use crate::proto::{Tag, be32, read_be32};
use crate::text::{find_byte, lemma_find_byte, exec_find_byte, str_from_utf8};

verus! {

/// A transaction status, as `ReadyForQuery` reports it.
#[derive(Clone, Copy, Debug, PartialEq, Eq, Structural)]
pub enum TxStatus {
    /// `I`: not in a transaction.
    Idle,
    /// `T`: in a transaction.
    InTransaction,
    /// `E`: in a failed transaction.
    Failed,
}

/// What an `Authentication` message asks for.
#[derive(Clone, Copy, Debug, PartialEq, Eq, Structural)]
pub enum AuthRequest {
    /// Authenticated.
    Authenticated,
    /// A cleartext password.
    CleartextPassword,
    /// An MD5-hashed password.
    Md5Password,
    /// A SASL exchange.
    Sasl,
    /// The next SASL step.
    SaslContinue,
    /// The last SASL step.
    SaslFinal,
    /// Any other method, by its number.
    Other(i32),
}

/// A decoded server message, for the ones read during startup.
#[derive(Clone, Copy, Debug)]
pub enum BackendMessage<'a> {
    /// `Authentication`.
    Authentication(AuthRequest),
    /// `ParameterStatus`.
    ParameterStatus { name: &'a str, value: &'a str },
    /// `BackendKeyData`: the server's own cancel key.
    BackendKeyData { process_id: i32, secret: i32 },
    /// `ReadyForQuery`.
    ReadyForQuery(TxStatus),
    /// `ErrorResponse`: its message and SQLSTATE.
    ErrorResponse { message: &'a str, code: &'a str },
    /// `NoticeResponse`.
    NoticeResponse { message: &'a str, code: &'a str },
    /// Any other message, left opaque.
    Other(Tag),
}

/// The signed reading of a 32-bit big-endian value.
pub open spec fn as_i32(v: int) -> i32 {
    if v >= 0x8000_0000 {
        (v - 0x1_0000_0000) as i32
    } else {
        v as i32
    }
}

/// What an `Authentication` subtype asks for.
pub open spec fn auth_request_of(subtype: i32) -> AuthRequest {
    if subtype == 0 {
        AuthRequest::Authenticated
    } else if subtype == 3 {
        AuthRequest::CleartextPassword
    } else if subtype == 5 {
        AuthRequest::Md5Password
    } else if subtype == 10 {
        AuthRequest::Sasl
    } else if subtype == 11 {
        AuthRequest::SaslContinue
    } else if subtype == 12 {
        AuthRequest::SaslFinal
    } else {
        AuthRequest::Other(subtype)
    }
}

/// Where a run of type-tagged, null-terminated fields from position `i` ends
/// with its zero type byte, if it is well formed.
pub open spec fn run_end(b: Seq<u8>, i: int) -> Option<int>
    decreases b.len() - i,
{
    if i < 0 || i >= b.len() {
        None
    } else if b[i] == 0 {
        Some(i)
    } else {
        proof {
            lemma_find_byte(b, 0, i + 1);
        }
        match find_byte(b, 0, i + 1) {
            None => None,
            Some(end) => if end < i {
                None
            } else {
                run_end(b, end + 1)
            },
        }
    }
}

/// Where the value of the first field of type `kind` from position `i` lies.
pub open spec fn first_field(b: Seq<u8>, kind: u8, i: int) -> Option<(int, int)>
    decreases b.len() - i,
{
    if i < 0 || i >= b.len() || b[i] == 0 {
        None
    } else {
        proof {
            lemma_find_byte(b, 0, i + 1);
        }
        match find_byte(b, 0, i + 1) {
            None => None,
            Some(end) => if end < i {
                None
            } else if b[i] == kind {
                Some((i + 1, end))
            } else {
                first_field(b, kind, end + 1)
            },
        }
    }
}

pub proof fn lemma_first_field(b: Seq<u8>, kind: u8, i: int)
    requires
        0 <= i,
    ensures
        first_field(b, kind, i) matches Some((a, e)) ==> i < a <= e < b.len(),
    decreases b.len() - i,
{
    if 0 <= i < b.len() && b[i] != 0 {
        lemma_find_byte(b, 0, i + 1);
        match find_byte(b, 0, i + 1) {
            Some(end) => {
                if end >= i && b[i] != kind {
                    lemma_first_field(b, kind, end + 1);
                }
            },
            None => {},
        }
    }
}

/// The text of an error field: empty when it is not there, `None` when the
/// run is malformed or the field is not UTF-8.
pub open spec fn field_text(b: Seq<u8>, kind: u8) -> Option<Seq<u8>> {
    if run_end(b, 0) is None {
        None
    } else {
        match first_field(b, kind, 0) {
            None => Some(Seq::empty()),
            Some((a, e)) => if vstd::utf8::valid_utf8(b.subrange(a, e)) {
                Some(b.subrange(a, e))
            } else {
                None
            },
        }
    }
}

/// Where a `ParameterStatus` body's name and value end.
pub open spec fn parameter_status_ends(b: Seq<u8>) -> Option<(int, int)> {
    match find_byte(b, 0, 0) {
        None => None,
        Some(n) => match find_byte(b, 0, n + 1) {
            None => None,
            Some(v) => Some((n, v)),
        },
    }
}

/// The message a frame carries, when it is well formed.
///
/// `Authentication` needs a four-byte subtype; `ParameterStatus` a name and a
/// value, each null-terminated UTF-8; `BackendKeyData` exactly two 32-bit
/// integers; `ReadyForQuery` exactly one status byte of `I`, `T` or `E`; an
/// error or notice a well-formed run of fields whose `M` and `C` are UTF-8,
/// either one empty when missing. Every other tag is left opaque.
pub open spec fn spec_decode<'a>(tag: Tag, b: Seq<u8>) -> Option<BackendMessage<'a>> {
    if tag.0 == Tag::AUTHENTICATION {
        if b.len() < 4 {
            None
        } else {
            Some(BackendMessage::Authentication(auth_request_of(as_i32(be32(b, 0)))))
        }
    } else if tag.0 == Tag::PARAMETER_STATUS {
        None
    } else if tag.0 == Tag::BACKEND_KEY_DATA {
        if b.len() != 8 {
            None
        } else {
            Some(BackendMessage::BackendKeyData { process_id: as_i32(be32(b, 0)), secret: as_i32(be32(b, 4)) })
        }
    } else if tag.0 == Tag::READY_FOR_QUERY {
        if b.len() != 1 {
            None
        } else if b[0] == 0x49 {
            Some(BackendMessage::ReadyForQuery(TxStatus::Idle))
        } else if b[0] == 0x54 {
            Some(BackendMessage::ReadyForQuery(TxStatus::InTransaction))
        } else if b[0] == 0x45 {
            Some(BackendMessage::ReadyForQuery(TxStatus::Failed))
        } else {
            None
        }
    } else if tag.0 == Tag::ERROR_RESPONSE || tag.0 == Tag::NOTICE_RESPONSE {
        None
    } else {
        Some(BackendMessage::Other(tag))
    }
}

/// What [`decode`] makes of a frame, with the text of the messages that carry
/// text given as the bytes it lies at.
pub enum Decoded {
    /// Not well formed.
    Malformed,
    /// `ParameterStatus`, with its name and value.
    Parameter(Seq<u8>, Seq<u8>),
    /// `ErrorResponse`, with its message and code.
    Error(Seq<u8>, Seq<u8>),
    /// `NoticeResponse`, with its message and code.
    Notice(Seq<u8>, Seq<u8>),
}

/// The whole decoding of a frame.
pub open spec fn spec_decoded(tag: Tag, b: Seq<u8>) -> Decoded {
    if tag.0 == Tag::PARAMETER_STATUS {
        match parameter_status_ends(b) {
            None => Decoded::Malformed,
            Some((n, v)) => if vstd::utf8::valid_utf8(b.subrange(0, n)) && vstd::utf8::valid_utf8(
                b.subrange(n + 1, v),
            ) {
                Decoded::Parameter(b.subrange(0, n), b.subrange(n + 1, v))
            } else {
                Decoded::Malformed
            },
        }
    } else if tag.0 == Tag::ERROR_RESPONSE || tag.0 == Tag::NOTICE_RESPONSE {
        match (field_text(b, 0x4d), field_text(b, 0x43)) {
            (Some(m), Some(c)) => if tag.0 == Tag::ERROR_RESPONSE {
                Decoded::Error(m, c)
            } else {
                Decoded::Notice(m, c)
            },
            _ => Decoded::Malformed,
        }
    } else {
        Decoded::Malformed
    }
}

/// Whether a decoded message is what [`spec_decode`] and [`spec_decoded`]
/// say a frame holds.
pub open spec fn decodes_to<'a>(tag: Tag, b: Seq<u8>, m: Option<BackendMessage<'a>>) -> bool {
    if tag.0 == Tag::PARAMETER_STATUS || tag.0 == Tag::ERROR_RESPONSE || tag.0 == Tag::NOTICE_RESPONSE {
        match spec_decoded(tag, b) {
            Decoded::Parameter(n, v) => m matches Some(BackendMessage::ParameterStatus { name, value })
                && name.spec_bytes() == n && value.spec_bytes() == v,
            Decoded::Error(msg, c) => m matches Some(BackendMessage::ErrorResponse { message, code })
                && message.spec_bytes() == msg && code.spec_bytes() == c,
            Decoded::Notice(msg, c) => m matches Some(BackendMessage::NoticeResponse { message, code })
                && message.spec_bytes() == msg && code.spec_bytes() == c,
            _ => m is None,
        }
    } else {
        m == spec_decode(tag, b)
    }
}

/// The text of one error field.
pub fn error_field_text<'a>(b: &'a [u8], kind: u8) -> (r: Option<&'a str>)
    ensures
        match field_text(b@, kind) {
            Some(t) => r matches Some(s) && s.spec_bytes() == t,
            None => r is None,
        },
{
    let n = b.len();
    let mut i: usize = 0;
    let mut found: Option<(usize, usize)> = None;
    loop
        invariant
            i <= n,
            n == b@.len(),
            run_end(b@, 0) == run_end(b@, i as int),
            found matches Some((a, e)) ==> a <= e <= n,
            first_field(b@, kind, 0) == match found {
                Some((a, e)) => Some((a as int, e as int)),
                None => first_field(b@, kind, i as int),
            },
        ensures
            i < n,
            b@[i as int] == 0,
            run_end(b@, 0) == run_end(b@, i as int),
            first_field(b@, kind, 0) == match found {
                Some((a, e)) => Some((a as int, e as int)),
                None => first_field(b@, kind, i as int),
            },
            found matches Some((a, e)) ==> a <= e <= n,
        decreases n - i,
    {
        if i >= n {
            return None;
        }
        if b[i] == 0 {
            break;
        }
        proof {
            lemma_find_byte(b@, 0, i + 1);
        }
        let end = match exec_find_byte(b, 0, i + 1) {
            Some(e) => e,
            None => return None,
        };
        if found.is_none() && b[i] == kind {
            found = Some((i + 1, end));
        }
        i = end + 1;
    }
    match found {
        None => {
            let empty = vstd::slice::slice_subrange(b, 0, 0);
            assert(empty@ =~= Seq::<u8>::empty());
            str_from_utf8(empty)
        },
        Some((a, e)) => str_from_utf8(vstd::slice::slice_subrange(b, a, e)),
    }
}

/// Decodes a server message read during startup.
pub fn decode<'a>(tag: Tag, body: &'a [u8]) -> (r: Option<BackendMessage<'a>>)
    ensures
        decodes_to(tag, body@, r),
{
    let n = body.len();
    if tag.0 == Tag::AUTHENTICATION {
        if n < 4 {
            return None;
        }
        let v = read_be32(body, 0);
        let subtype: i32 = if v >= 0x8000_0000 {
            (v as i64 - 0x1_0000_0000i64) as i32
        } else {
            v as i32
        };
        let request = if subtype == 0 {
            AuthRequest::Authenticated
        } else if subtype == 3 {
            AuthRequest::CleartextPassword
        } else if subtype == 5 {
            AuthRequest::Md5Password
        } else if subtype == 10 {
            AuthRequest::Sasl
        } else if subtype == 11 {
            AuthRequest::SaslContinue
        } else if subtype == 12 {
            AuthRequest::SaslFinal
        } else {
            AuthRequest::Other(subtype)
        };
        Some(BackendMessage::Authentication(request))
    } else if tag.0 == Tag::PARAMETER_STATUS {
        proof {
            lemma_find_byte(body@, 0, 0);
        }
        let name_end = match exec_find_byte(body, 0, 0) {
            Some(k) => k,
            None => return None,
        };
        proof {
            lemma_find_byte(body@, 0, name_end + 1);
        }
        let value_end = match exec_find_byte(body, 0, name_end + 1) {
            Some(k) => k,
            None => return None,
        };
        let name = match str_from_utf8(vstd::slice::slice_subrange(body, 0, name_end)) {
            Some(t) => t,
            None => return None,
        };
        let value = match str_from_utf8(vstd::slice::slice_subrange(body, name_end + 1, value_end)) {
            Some(t) => t,
            None => return None,
        };
        Some(BackendMessage::ParameterStatus { name, value })
    } else if tag.0 == Tag::BACKEND_KEY_DATA {
        if n != 8 {
            return None;
        }
        let p = read_be32(body, 0);
        let k = read_be32(body, 4);
        let process_id: i32 = if p >= 0x8000_0000 {
            (p as i64 - 0x1_0000_0000i64) as i32
        } else {
            p as i32
        };
        let secret: i32 = if k >= 0x8000_0000 {
            (k as i64 - 0x1_0000_0000i64) as i32
        } else {
            k as i32
        };
        Some(BackendMessage::BackendKeyData { process_id, secret })
    } else if tag.0 == Tag::READY_FOR_QUERY {
        if n != 1 {
            return None;
        }
        if body[0] == 0x49 {
            Some(BackendMessage::ReadyForQuery(TxStatus::Idle))
        } else if body[0] == 0x54 {
            Some(BackendMessage::ReadyForQuery(TxStatus::InTransaction))
        } else if body[0] == 0x45 {
            Some(BackendMessage::ReadyForQuery(TxStatus::Failed))
        } else {
            None
        }
    } else if tag.0 == Tag::ERROR_RESPONSE || tag.0 == Tag::NOTICE_RESPONSE {
        let message = match error_field_text(body, 0x4d) {
            Some(t) => t,
            None => return None,
        };
        let code = match error_field_text(body, 0x43) {
            Some(t) => t,
            None => return None,
        };
        if tag.0 == Tag::ERROR_RESPONSE {
            Some(BackendMessage::ErrorResponse { message, code })
        } else {
            Some(BackendMessage::NoticeResponse { message, code })
        }
    } else {
        Some(BackendMessage::Other(tag))
    }
}

} // verus!
