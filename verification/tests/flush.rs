use pgprox::flush::Outstanding;
use pgprox::proto::{FrontendMessage, Tag, Target};

fn parse() -> FrontendMessage<'static> {
    FrontendMessage::Parse {
        statement: "s1",
        sql: "SELECT $1",
    }
}

fn describe() -> FrontendMessage<'static> {
    FrontendMessage::Describe {
        target: Target::Statement,
        name: "s1",
    }
}

fn bind() -> FrontendMessage<'static> {
    FrontendMessage::Bind {
        portal: "",
        statement: "s1",
    }
}

fn execute() -> FrontendMessage<'static> {
    FrontendMessage::Execute {
        portal: "",
        max_rows: 0,
    }
}

#[test]
fn nothing_sent_is_already_settled() {
    assert!(Outstanding::new().settled());
}

#[test]
fn the_asyncpg_prepare_sequence_settles_when_the_description_arrives() {
    // Parse, Describe, Flush. This is the exact sequence that hung: the
    // server answers with ParseComplete, ParameterDescription and
    // RowDescription and then goes quiet, and there is no ReadyForQuery.
    let mut owed = Outstanding::new();
    owed.sent(&parse());
    owed.sent(&describe());
    owed.sent(&FrontendMessage::Flush);
    assert!(!owed.settled(), "a Flush on its own settles nothing");

    owed.received(Tag(b'1'));
    assert!(!owed.settled(), "the description is still owed");
    owed.received(Tag(b't'));
    assert!(
        !owed.settled(),
        "ParameterDescription is not the end of a Describe"
    );
    owed.received(Tag(b'T'));
    assert!(owed.settled(), "RowDescription ends it");
}

#[test]
fn a_statement_returning_no_rows_ends_its_describe_with_no_data() {
    let mut owed = Outstanding::new();
    owed.sent(&describe());
    owed.received(Tag(b'n'));
    assert!(owed.settled());
}

#[test]
fn rows_do_not_discharge_the_execute_they_belong_to() {
    let mut owed = Outstanding::new();
    owed.sent(&bind());
    owed.sent(&execute());
    owed.received(Tag(b'2'));
    for _ in 0..100 {
        owed.received(Tag(b'D'));
        assert!(!owed.settled(), "a DataRow ended an Execute");
    }
    owed.received(Tag(b'C'));
    assert!(owed.settled());
}

#[test]
fn a_suspended_portal_ends_its_execute() {
    // The client asked for a row limit and got it. It is waiting on
    // exactly this and nothing further is coming until it asks again.
    let mut owed = Outstanding::new();
    owed.sent(&execute());
    owed.received(Tag(b's'));
    assert!(owed.settled());
}

#[test]
fn an_empty_query_ends_its_execute() {
    let mut owed = Outstanding::new();
    owed.sent(&execute());
    owed.received(Tag(b'I'));
    assert!(owed.settled());
}

#[test]
fn a_close_is_answered_by_its_own_completion() {
    let mut owed = Outstanding::new();
    owed.sent(&FrontendMessage::Close {
        target: Target::Statement,
        name: "s1",
    });
    owed.received(Tag(b'3'));
    assert!(owed.settled());
}

#[test]
fn an_error_abandons_everything_still_owed() {
    // The server skips the rest of the sequence and waits for a Sync. A
    // proxy that kept waiting for the completions it was promised would
    // hang on the error path instead of the happy one.
    let mut owed = Outstanding::new();
    owed.sent(&parse());
    owed.sent(&describe());
    owed.sent(&execute());
    owed.received(Tag(Tag::ERROR_RESPONSE));
    assert!(owed.settled());
}

#[test]
fn ready_for_query_clears_whatever_is_left() {
    let mut owed = Outstanding::new();
    owed.sent(&parse());
    owed.received(Tag(Tag::READY_FOR_QUERY));
    assert!(owed.settled());
}

#[test]
fn a_completion_out_of_order_discharges_nothing() {
    // The server answers in order. A tag that does not match the head
    // belongs to something else, and popping on it would lose count in a
    // way that shows up as a hang three statements later.
    let mut owed = Outstanding::new();
    owed.sent(&parse());
    owed.received(Tag(b'2'));
    assert!(!owed.settled(), "a BindComplete discharged a Parse");
    owed.received(Tag(b'1'));
    assert!(owed.settled());
}

#[test]
fn a_frame_that_owes_nothing_adds_nothing() {
    let mut owed = Outstanding::new();
    owed.sent(&FrontendMessage::Sync);
    owed.sent(&FrontendMessage::Flush);
    owed.sent(&FrontendMessage::Query { sql: "SELECT 1" });
    assert!(owed.settled());
}

#[test]
fn a_completion_with_nothing_owed_is_ignored() {
    let mut owed = Outstanding::new();
    owed.received(Tag(b'1'));
    assert!(owed.settled());
}
