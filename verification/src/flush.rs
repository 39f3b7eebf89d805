//! What the server still owes the client, so a `Flush` can be answered.
//!
//! A `Sync` ends an extended-query sequence with a `ReadyForQuery`, which a
//! proxy can wait for. A `Flush` does not: the server answers everything
//! outstanding and then says nothing more. A proxy that reads until
//! `ReadyForQuery` deadlocks on one.
//!
//! So the answer is known by counting. Every extended-query frame forwarded
//! makes the server owe exactly one completion, and the tags that discharge
//! each kind are fixed. When nothing is outstanding, a `Flush` has been
//! answered in full.
use std::collections::VecDeque;
use vstd::prelude::*;

use crate::proto::{FrontendMessage, Tag};

verus! {

/// One thing the server owes, named by what discharges it.
#[derive(Clone, Copy, Debug, PartialEq, Eq, Structural)]
pub enum Owed {
    /// `Parse` is answered by `ParseComplete`.
    Parse,
    /// `Bind` is answered by `BindComplete`.
    Bind,
    /// `Close` is answered by `CloseComplete`.
    Close,
    /// `Describe` is answered by `RowDescription` or `NoData`; a statement's
    /// `ParameterDescription` comes first and does not end it.
    Describe,
    /// `Execute` is answered by `CommandComplete`, `PortalSuspended` or
    /// `EmptyQueryResponse`; the rows before it do not end it.
    Execute,
}

/// What a forwarded client message makes the server owe, if anything.
/// `Sync` and `Query` end with a `ReadyForQuery`, and `Flush` adds nothing.
pub open spec fn owed_for(message: FrontendMessage) -> Option<Owed> {
    match message {
        FrontendMessage::Parse { .. } => Some(Owed::Parse),
        FrontendMessage::Bind { .. } => Some(Owed::Bind),
        FrontendMessage::Close { .. } => Some(Owed::Close),
        FrontendMessage::Describe { .. } => Some(Owed::Describe),
        FrontendMessage::Execute { .. } => Some(Owed::Execute),
        _ => None,
    }
}

/// Whether a server frame with this tag discharges this debt.
pub open spec fn discharges(owed: Owed, tag: Tag) -> bool {
    match owed {
        Owed::Parse => tag.0 == Tag::PARSE_COMPLETE,
        Owed::Bind => tag.0 == Tag::BIND_COMPLETE,
        Owed::Close => tag.0 == Tag::CLOSE_COMPLETE,
        Owed::Describe => tag.0 == Tag::ROW_DESCRIPTION || tag.0 == Tag::NO_DATA,
        Owed::Execute => tag.0 == Tag::COMMAND_COMPLETE || tag.0 == Tag::PORTAL_SUSPENDED || tag.0
            == Tag::EMPTY_QUERY_RESPONSE,
    }
}

/// What is owed after a server frame with this tag is forwarded.
///
/// An `ErrorResponse` abandons the rest of the sequence and a
/// `ReadyForQuery` ends it, so both clear the queue. Any other tag discharges
/// the head if it is what the head was waiting for, and nothing otherwise:
/// the server answers in order.
pub open spec fn after_received(owed: Seq<Owed>, tag: Tag) -> Seq<Owed> {
    if tag.0 == Tag::ERROR_RESPONSE || tag.0 == Tag::READY_FOR_QUERY {
        Seq::empty()
    } else if owed.len() > 0 && discharges(owed[0], tag) {
        owed.drop_first()
    } else {
        owed
    }
}

/// The queue of completions the server has not sent yet.
#[derive(Debug, Clone)]
pub struct Outstanding {
    owed: VecDeque<Owed>,
}

impl View for Outstanding {
    type V = Seq<Owed>;

    closed spec fn view(&self) -> Seq<Owed> {
        self.owed@
    }
}

impl Outstanding {
    /// Nothing outstanding.
    pub fn new() -> (r: Outstanding)
        ensures
            r@ == Seq::<Owed>::empty(),
    {
        Outstanding { owed: VecDeque::new() }
    }

    /// Records a client frame the proxy has forwarded upstream.
    ///
    /// Forwarded, not received: a `Parse` the proxy answers itself never
    /// reaches the server, which then owes nothing for it.
    pub fn sent(&mut self, message: &FrontendMessage)
        ensures
            final(self)@ == match owed_for(*message) {
                Some(o) => old(self)@.push(o),
                None => old(self)@,
            },
    {
        let owed = match message {
            FrontendMessage::Parse { .. } => Owed::Parse,
            FrontendMessage::Bind { .. } => Owed::Bind,
            FrontendMessage::Close { .. } => Owed::Close,
            FrontendMessage::Describe { .. } => Owed::Describe,
            FrontendMessage::Execute { .. } => Owed::Execute,
            _ => return ,
        };
        self.owed.push_back(owed);
    }

    /// Records a server frame the proxy has forwarded to the client.
    pub fn received(&mut self, tag: Tag)
        ensures
            final(self)@ == after_received(old(self)@, tag),
    {
        if tag.0 == Tag::ERROR_RESPONSE || tag.0 == Tag::READY_FOR_QUERY {
            self.owed.clear();
            return ;
        }
        self.discharge(tag);
    }

    /// Whether every frame forwarded since the last `Sync` has been answered.
    pub fn settled(&self) -> (r: bool)
        ensures
            r == (self@.len() == 0),
    {
        self.owed.len() == 0
    }

    /// Pops the head if this tag is what the head was waiting for.
    fn discharge(&mut self, tag: Tag)
        requires
            !(tag.0 == Tag::ERROR_RESPONSE || tag.0 == Tag::READY_FOR_QUERY),
        ensures
            final(self)@ == after_received(old(self)@, tag),
    {
        if self.owed.len() == 0 {
            return ;
        }
        let head = self.owed[0];
        let matches = match head {
            Owed::Parse => tag.0 == Tag::PARSE_COMPLETE,
            Owed::Bind => tag.0 == Tag::BIND_COMPLETE,
            Owed::Close => tag.0 == Tag::CLOSE_COMPLETE,
            Owed::Describe => tag.0 == Tag::ROW_DESCRIPTION || tag.0 == Tag::NO_DATA,
            Owed::Execute => tag.0 == Tag::COMMAND_COMPLETE || tag.0 == Tag::PORTAL_SUSPENDED || tag.0
                == Tag::EMPTY_QUERY_RESPONSE,
        };
        if matches {
            let _ = self.owed.pop_front();
        }
    }
}

/// The completion that ends a debt, one of those that do.
pub open spec fn completion(owed: Owed) -> Tag {
    match owed {
        Owed::Parse => Tag(Tag::PARSE_COMPLETE),
        Owed::Bind => Tag(Tag::BIND_COMPLETE),
        Owed::Close => Tag(Tag::CLOSE_COMPLETE),
        Owed::Describe => Tag(Tag::ROW_DESCRIPTION),
        Owed::Execute => Tag(Tag::COMMAND_COMPLETE),
    }
}

/// What is owed after a run of server frames.
pub open spec fn after_all(owed: Seq<Owed>, tags: Seq<Tag>) -> Seq<Owed>
    decreases tags.len(),
{
    if tags.len() == 0 {
        owed
    } else {
        after_all(after_received(owed, tags[0]), tags.drop_first())
    }
}

/// Whatever is owed, the server answering each debt in order with its
/// completion settles it: nothing is left waiting for a frame nobody sends.
pub proof fn law_answering_in_order_settles(owed: Seq<Owed>)
    ensures
        after_all(owed, owed.map_values(|o: Owed| completion(o))).len() == 0,
    decreases owed.len(),
{
    if owed.len() > 0 {
        let tags = owed.map_values(|o: Owed| completion(o));
        assert(tags[0] == completion(owed[0]));
        assert(tags.drop_first() =~= owed.drop_first().map_values(|o: Owed| completion(o)));
        law_answering_in_order_settles(owed.drop_first());
    }
}

/// A frame that discharges nothing, such as a `DataRow`, a
/// `ParameterDescription` or a notice, leaves the count exactly as it was.
pub proof fn law_a_frame_that_ends_nothing_changes_nothing(owed: Seq<Owed>, tag: Tag)
    requires
        !(tag.0 == Tag::ERROR_RESPONSE || tag.0 == Tag::READY_FOR_QUERY),
        owed.len() == 0 || !discharges(owed[0], tag),
    ensures
        after_received(owed, tag) == owed,
{
}

} // verus!
