//! What a handler answers: a JSON body, or a failure with a status and a message.

use vstd::prelude::*;

use crate::json::{error_json, jerror, Json, JsonView};
use crate::text::Text;

verus! {

/// A refused request: the HTTP status and the message of the error body.
pub struct Failure {
    pub status: u16,
    pub message: String,
}

/// What a failure says.
pub struct FailureView {
    pub status: u16,
    pub message: Text,
}

impl Failure {
    /// The status and the message.
    pub open spec fn view(self) -> FailureView {
        FailureView { status: self.status, message: self.message@ }
    }

    /// The error body `{"error": message}`.
    pub fn body(&self) -> (r: Json)
        ensures
            r@ == error_json(self@.message),
    {
        jerror(self.message.as_str())
    }
}

/// The failure with this status and this message.
pub open spec fn failure(status: u16, message: Text) -> FailureView {
    FailureView { status, message }
}

/// Makes a failure.
pub fn fail(status: u16, message: &str) -> (r: Failure)
    ensures
        r@ == failure(status, message@),
        r.status == status,
        r.message@ == message@,
{
    Failure { status, message: message.to_owned() }
}

/// What an answer says.
pub open spec fn answer(r: Result<Json, Failure>) -> Result<JsonView, FailureView> {
    match r {
        Ok(j) => Ok(j@),
        Err(f) => Err(f@),
    }
}

/// A failure says its own status and message, and an answer says its own body or its own failure.
pub proof fn law_answers(f: Failure, j: Json, r: Result<Json, Failure>)
    ensures
        f@.status == f.status,
        f@.message == f.message@,
        r == Ok::<Json, Failure>(j) ==> answer(r) == Ok::<JsonView, FailureView>(j@),
        r == Err::<Json, Failure>(f) ==> (answer(r) matches Err(g) && g.status == f.status && g.message
            == f.message@),
{
}

} // verus!
