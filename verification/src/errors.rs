//! Application-level errors and the replies they produce.

use vstd::prelude::*;
use crate::headers::law_ascending_listing_is_unique;
use crate::json_text::{
    insert_string, keys_ascending, law_plain_text_is_not_escaped, lists_map, members_text, new_object,
    object_text, object_to_json, quoted, string_members,
};
use crate::text::{i64_to_decimal, signed_decimal};

verus! {

/// Application-level error type used across handlers and services.
#[derive(Debug)]
pub enum AppError {
    /// A database error, with the database's own message.
    Db(String),
    NotFound(i64),
    ReplayFailed(String),
    BadRequest(String),
}

/// The HTTP status of each error.
pub open spec fn status_of(e: AppError) -> u16 {
    match e {
        AppError::Db(_) => 500,
        AppError::NotFound(_) => 404,
        AppError::ReplayFailed(_) => 502,
        AppError::BadRequest(_) => 400,
    }
}

/// The text of each error.
pub open spec fn message_of(e: AppError) -> Seq<char> {
    match e {
        AppError::Db(m) => "Database error: "@ + m@,
        AppError::NotFound(id) => "Request "@ + signed_decimal(id as int) + " not found"@,
        AppError::ReplayFailed(m) => "Replay failed: "@ + m@,
        AppError::BadRequest(m) => "Bad request: "@ + m@,
    }
}

/// An HTTP reply: status and JSON body.
#[derive(Debug)]
pub struct ErrorReply {
    pub status: u16,
    pub body: String,
}

/// The JSON body `{"error": text}`.
pub open spec fn error_body_text(text: Seq<char>) -> Seq<char> {
    object_text(seq![("error"@, text)])
}

fn error_json(text: String) -> (body: String)
    ensures
        body@ == error_body_text(text@),
{
    let ghost t = text@;
    let mut object = new_object();
    proof {
        assert(string_members(object) =~= Map::<Seq<char>, Seq<char>>::empty());
    }
    insert_string(&mut object, String::from_str("error"), text);
    let body = object_to_json(object);
    proof {
        let m = Map::<Seq<char>, Seq<char>>::empty().insert("error"@, t);
        let one = seq![("error"@, t)];
        let e = choose|e: Seq<(Seq<char>, Seq<char>)>|
            keys_ascending(e) && lists_map(e, m) && body@ == object_text(e);
        assert(keys_ascending(one));
        assert forall|k: Seq<char>| #[trigger] m.contains_key(k) implies exists|i: int|
            0 <= i < one.len() && one[i].0 == k by {
            assert(one[0].0 == k);
        }
        assert(lists_map(one, m));
        law_ascending_listing_is_unique(e, one, m);
    }
    body
}

impl AppError {
    /// The HTTP status this error is answered with.
    pub fn status_code(&self) -> (status: u16)
        ensures
            status == status_of(*self),
    {
        match self {
            AppError::Db(_) => 500,
            AppError::NotFound(_) => 404,
            AppError::ReplayFailed(_) => 502,
            AppError::BadRequest(_) => 400,
        }
    }

    /// The error's text, e.g. `Request 7 not found`.
    pub fn message(&self) -> (text: String)
        ensures
            text@ == message_of(*self),
    {
        match self {
            AppError::Db(m) => {
                let mut s = String::from_str("Database error: ");
                s.append(m.as_str());
                s
            },
            AppError::NotFound(id) => {
                let mut s = String::from_str("Request ");
                let digits = i64_to_decimal(*id);
                s.append(digits.as_str());
                s.append(" not found");
                s
            },
            AppError::ReplayFailed(m) => {
                let mut s = String::from_str("Replay failed: ");
                s.append(m.as_str());
                s
            },
            AppError::BadRequest(m) => {
                let mut s = String::from_str("Bad request: ");
                s.append(m.as_str());
                s
            },
        }
    }

    /// The reply to this error: its status and `{"error": message}`.
    pub fn error_response(&self) -> (reply: ErrorReply)
        ensures
            reply.status == status_of(*self),
            reply.body@ == error_body_text(message_of(*self)),
    {
        let status = self.status_code();
        let text = self.message();
        ErrorReply { status, body: error_json(text) }
    }
}

/// The body of a database failure in the list endpoints.
#[derive(Debug)]
pub struct ErrorBody {
    pub error: String,
}

impl ErrorBody {
    /// `DB error: ` followed by the database's message.
    pub fn new(e: &str) -> (body: ErrorBody)
        ensures
            body.error@ == "DB error: "@ + e@,
    {
        let mut error = String::from_str("DB error: ");
        error.append(e);
        ErrorBody { error }
    }

    /// The JSON text `{"error": ...}` of this body.
    pub fn to_json(&self) -> (text: String)
        ensures
            text@ == error_body_text(self.error@),
    {
        error_json(self.error.clone())
    }
}

/// Each error is answered with its own status (a database failure 500, a
/// missing request 404, a failed replay 502, a bad request 400) and the
/// JSON object `{"error":"..."}` of its message, the message being the
/// error's kind followed by its detail.
pub proof fn law_error_replies(e: AppError)
    ensures
        status_of(e) == (match e {
            AppError::Db(_) => 500u16,
            AppError::NotFound(_) => 404u16,
            AppError::ReplayFailed(_) => 502u16,
            AppError::BadRequest(_) => 400u16,
        }),
        message_of(e) == (match e {
            AppError::Db(m) => "Database error: "@ + m@,
            AppError::NotFound(id) => "Request "@ + signed_decimal(id as int) + " not found"@,
            AppError::ReplayFailed(m) => "Replay failed: "@ + m@,
            AppError::BadRequest(m) => "Bad request: "@ + m@,
        }),
        error_body_text(message_of(e)) == "{\"error\":"@ + quoted(message_of(e)) + "}"@,
{
    lemma_error_body(message_of(e));
}

/// The body of an error reply is `{"error":` followed by its text as a
/// JSON string and `}`.
pub proof fn lemma_error_body(text: Seq<char>)
    ensures
        error_body_text(text) == "{\"error\":"@ + quoted(text) + "}"@,
{
    reveal_strlit("error");
    reveal_strlit("{\"error\":");
    reveal_strlit("}");
    let one = seq![("error"@, text)];
    assert(members_text(one, 1) == quoted("error"@) + seq![':'] + quoted(text));
    law_plain_text_is_not_escaped("error"@);
    assert(seq!['{'] + (quoted("error"@) + seq![':'] + quoted(text)) + seq!['}'] =~= "{\"error\":"@ + quoted(
        text,
    ) + "}"@);
}

} // verus!
