//! Reading what a client sends once its session is open: the tag and body
//! of one frame, as the message they make up.
use vstd::prelude::*;
use vstd::string::*;

use crate::proto::{FrontendMessage, Tag, Target, be32, read_be32};
use crate::text::{find_byte, lemma_find_byte, exec_find_byte, str_from_utf8};

verus! {

/// A client message, by the bytes of its fields.
pub enum Shape {
    Query(Seq<u8>),
    Parse(Seq<u8>, Seq<u8>),
    Bind(Seq<u8>, Seq<u8>),
    Describe(Target, Seq<u8>),
    Execute(Seq<u8>, i32),
    Close(Target, Seq<u8>),
    Sync,
    Flush,
    Terminate,
    CopyData(Seq<u8>),
    CopyDone,
    CopyFail,
}

/// The fields of a decoded message, as bytes.
pub open spec fn shape_of(m: FrontendMessage) -> Shape {
    match m {
        FrontendMessage::Query { sql } => Shape::Query(sql.spec_bytes()),
        FrontendMessage::Parse { statement, sql } => Shape::Parse(statement.spec_bytes(), sql.spec_bytes()),
        FrontendMessage::Bind { portal, statement } => Shape::Bind(portal.spec_bytes(), statement.spec_bytes()),
        FrontendMessage::Describe { target, name } => Shape::Describe(target, name.spec_bytes()),
        FrontendMessage::Execute { portal, max_rows } => Shape::Execute(portal.spec_bytes(), max_rows),
        FrontendMessage::Close { target, name } => Shape::Close(target, name.spec_bytes()),
        FrontendMessage::Sync => Shape::Sync,
        FrontendMessage::Flush => Shape::Flush,
        FrontendMessage::Terminate => Shape::Terminate,
        FrontendMessage::CopyData(data) => Shape::CopyData(data@),
        FrontendMessage::CopyDone => Shape::CopyDone,
        FrontendMessage::CopyFail => Shape::CopyFail,
    }
}

/// The null-terminated UTF-8 string at `at`, and where what follows it
/// starts.
pub open spec fn cstr_at(b: Seq<u8>, at: int) -> Option<(Seq<u8>, int)> {
    match find_byte(b, 0, at) {
        Some(k) => if vstd::utf8::valid_utf8(b.subrange(at, k)) {
            Some((b.subrange(at, k), k + 1))
        } else {
            None
        },
        None => None,
    }
}

/// What a `Describe` or a `Close` names, by its byte.
pub open spec fn target_of(c: u8) -> Option<Target> {
    if c == 0x53 {
        Some(Target::Statement)
    } else if c == 0x50 {
        Some(Target::Portal)
    } else {
        None
    }
}

/// A target byte and a name, as `Describe` and `Close` carry them.
pub open spec fn named_target(b: Seq<u8>) -> Option<(Target, Seq<u8>)> {
    if b.len() < 1 {
        None
    } else {
        match (target_of(b[0]), cstr_at(b, 1)) {
            (Some(t), Some((name, _))) => Some((t, name)),
            _ => None,
        }
    }
}

/// The message a client frame is. The fields after the names of a `Parse`
/// or a `Bind` are read where they are needed, not here.
pub open spec fn spec_decode_frontend(tag: u8, b: Seq<u8>) -> Option<Shape> {
    if tag == Tag::QUERY {
        match cstr_at(b, 0) {
            Some((sql, _)) => Some(Shape::Query(sql)),
            None => None,
        }
    } else if tag == Tag::PARSE || tag == Tag::BIND {
        match cstr_at(b, 0) {
            Some((first, next)) => match cstr_at(b, next) {
                Some((second, _)) => if tag == Tag::PARSE {
                    Some(Shape::Parse(first, second))
                } else {
                    Some(Shape::Bind(first, second))
                },
                None => None,
            },
            None => None,
        }
    } else if tag == Tag::DESCRIBE || tag == Tag::CLOSE {
        match named_target(b) {
            Some((t, name)) => if tag == Tag::DESCRIBE {
                Some(Shape::Describe(t, name))
            } else {
                Some(Shape::Close(t, name))
            },
            None => None,
        }
    } else if tag == Tag::EXECUTE {
        match cstr_at(b, 0) {
            Some((portal, next)) => if next + 4 <= b.len() {
                Some(Shape::Execute(portal, be32(b, next) as i32))
            } else {
                None
            },
            None => None,
        }
    } else if tag == Tag::SYNC {
        Some(Shape::Sync)
    } else if tag == Tag::FLUSH {
        Some(Shape::Flush)
    } else if tag == Tag::TERMINATE {
        Some(Shape::Terminate)
    } else if tag == Tag::COPY_DATA {
        Some(Shape::CopyData(b))
    } else if tag == Tag::COPY_DONE {
        Some(Shape::CopyDone)
    } else if tag == Tag::COPY_FAIL {
        Some(Shape::CopyFail)
    } else {
        None
    }
}

/// Reads the null-terminated UTF-8 string at `at`.
pub fn read_cstr<'a>(b: &'a [u8], at: usize) -> (r: Option<(&'a str, usize)>)
    ensures
        match cstr_at(b@, at as int) {
            Some((s, next)) => r matches Some((t, n)) && t.spec_bytes() == s && n == next,
            None => r is None,
        },
{
    let n = b.len();
    proof {
        lemma_find_byte(b@, 0, at as int);
    }
    let k = match exec_find_byte(b, 0, at) {
        Some(k) => k,
        None => return None,
    };
    let bytes = vstd::slice::slice_subrange(b, at, k);
    match str_from_utf8(bytes) {
        Some(text) => {
            assert(k < n);
            Some((text, k + 1))
        },
        None => None,
    }
}

/// Decodes one client frame.
pub fn decode_frontend<'a>(tag: Tag, body: &'a [u8]) -> (r: Option<FrontendMessage<'a>>)
    ensures
        match spec_decode_frontend(tag.0, body@) {
            Some(shape) => r matches Some(m) && shape_of(m) == shape,
            None => r is None,
        },
{
    let t = tag.0;
    if t == Tag::QUERY {
        match read_cstr(body, 0) {
            Some((sql, _)) => Some(FrontendMessage::Query { sql }),
            None => None,
        }
    } else if t == Tag::PARSE || t == Tag::BIND {
        let (first, next) = match read_cstr(body, 0) {
            Some(p) => p,
            None => return None,
        };
        let (second, _) = match read_cstr(body, next) {
            Some(p) => p,
            None => return None,
        };
        if t == Tag::PARSE {
            Some(FrontendMessage::Parse { statement: first, sql: second })
        } else {
            Some(FrontendMessage::Bind { portal: first, statement: second })
        }
    } else if t == Tag::DESCRIBE || t == Tag::CLOSE {
        if body.len() < 1 {
            return None;
        }
        let target = if body[0] == 0x53 {
            Target::Statement
        } else if body[0] == 0x50 {
            Target::Portal
        } else {
            return None;
        };
        let (name, _) = match read_cstr(body, 1) {
            Some(p) => p,
            None => return None,
        };
        if t == Tag::DESCRIBE {
            Some(FrontendMessage::Describe { target, name })
        } else {
            Some(FrontendMessage::Close { target, name })
        }
    } else if t == Tag::EXECUTE {
        let (portal, next) = match read_cstr(body, 0) {
            Some(p) => p,
            None => return None,
        };
        if next > body.len() || body.len() - next < 4 {
            return None;
        }
        let raw = read_be32(body, next);
        Some(FrontendMessage::Execute { portal, max_rows: raw as i32 })
    } else if t == Tag::SYNC {
        Some(FrontendMessage::Sync)
    } else if t == Tag::FLUSH {
        Some(FrontendMessage::Flush)
    } else if t == Tag::TERMINATE {
        Some(FrontendMessage::Terminate)
    } else if t == Tag::COPY_DATA {
        Some(FrontendMessage::CopyData(body))
    } else if t == Tag::COPY_DONE {
        Some(FrontendMessage::CopyDone)
    } else if t == Tag::COPY_FAIL {
        Some(FrontendMessage::CopyFail)
    } else {
        None
    }
}

pub(crate) proof fn lemma_find_first(s: Seq<u8>, b: u8, i: int, k: int)
    requires
        0 <= i <= k < s.len(),
        s[k] == b,
        forall|j: int| i <= j < k ==> s[j] != b,
    ensures
        find_byte(s, b, i) == Some(k),
    decreases k - i,
{
    if i < k {
        lemma_find_first(s, b, i + 1, k);
    }
}

/// A query as this proxy writes one reads back as its SQL, for SQL that is
/// UTF-8 and holds no null byte.
pub proof fn law_a_query_reads_back_as_its_sql(sql: Seq<u8>)
    requires
        vstd::utf8::valid_utf8(sql),
        forall|i: int| 0 <= i < sql.len() ==> sql[i] != 0,
    ensures
        spec_decode_frontend(Tag::QUERY, crate::encode::cstr(sql)) == Some(Shape::Query(sql)),
{
    let b = crate::encode::cstr(sql);
    lemma_find_first(b, 0, 0, sql.len() as int);
    assert(b.subrange(0, sql.len() as int) =~= sql);
}

} // verus!
