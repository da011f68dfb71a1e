//! What is sent and what comes back: requests, replies, and the verdict on a
//! reply.

use vstd::prelude::*;
use vstd::string::*;

verus! {

#[derive(Debug, Clone, Copy, PartialEq, Eq, Structural)]
pub enum Method {
    Get,
    Delete,
}

/// One request, ready to send.
#[derive(Debug, PartialEq, Eq)]
pub struct Request {
    pub method: Method,
    pub url: String,
    /// The value of the `Authorization` header.
    pub authorization: String,
}

/// What came back for one request: the status of the response, or the reason
/// why there was none.
#[derive(Debug, PartialEq, Eq)]
pub enum Reply {
    Status(u16),
    Failed(String),
}

/// Why a deletion failed.
#[derive(Debug, PartialEq, Eq)]
pub enum Cause {
    /// The response had this status, which is no success.
    Status(u16),
    /// No response came; the text says why.
    Transport(String),
}

#[derive(Debug, PartialEq, Eq)]
pub enum Verdict {
    Succeeded,
    Failed(Cause),
}

/// The value of the `Authorization` header for a bearer token.
pub open spec fn bearer(token: Seq<char>) -> Seq<char> {
    "Bearer "@ + token
}

pub fn bearer_header(token: &str) -> (r: String)
    ensures
        r@ == bearer(token@),
{
    "Bearer ".to_owned().concat(token)
}

/// A status from 200 to 299.
pub open spec fn is_success(status: u16) -> bool {
    200 <= status < 300
}

pub fn status_is_success(status: u16) -> (b: bool)
    ensures
        b == is_success(status),
{
    200 <= status && status < 300
}

/// The verdict on a reply: success for a success status, failure with its
/// cause for any other status and for a missing response.
pub open spec fn verdict_of(reply: Reply) -> Verdict {
    match reply {
        Reply::Status(status) => if is_success(status) {
            Verdict::Succeeded
        } else {
            Verdict::Failed(Cause::Status(status))
        },
        Reply::Failed(reason) => Verdict::Failed(Cause::Transport(reason)),
    }
}

/// A reply is a failure unless it is a response with a success status.
pub proof fn lemma_failure_unless_success(reply: Reply)
    ensures
        verdict_of(reply) is Failed <==> !(reply matches Reply::Status(status) && is_success(
            status,
        )),
        verdict_of(reply) is Succeeded <==> !(verdict_of(reply) is Failed),
{
}

pub fn classify(reply: Reply) -> (v: Verdict)
    ensures
        v == verdict_of(reply),
{
    match reply {
        Reply::Status(status) => if status_is_success(status) {
            Verdict::Succeeded
        } else {
            Verdict::Failed(Cause::Status(status))
        },
        Reply::Failed(reason) => Verdict::Failed(Cause::Transport(reason)),
    }
}

impl Verdict {
    pub fn is_failure(&self) -> (b: bool)
        ensures
            b == (*self is Failed),
    {
        match self {
            Verdict::Succeeded => false,
            Verdict::Failed(_) => true,
        }
    }

    /// A copy of the verdict.
    pub fn duplicate(&self) -> (v: Verdict)
        ensures
            v == *self,
    {
        match self {
            Verdict::Succeeded => Verdict::Succeeded,
            Verdict::Failed(Cause::Status(status)) => Verdict::Failed(Cause::Status(*status)),
            Verdict::Failed(Cause::Transport(reason)) => Verdict::Failed(
                Cause::Transport(reason.clone()),
            ),
        }
    }
}

impl Request {
    /// A copy of the request.
    pub fn duplicate(&self) -> (r: Request)
        ensures
            r == *self,
    {
        Request {
            method: self.method,
            url: self.url.clone(),
            authorization: self.authorization.clone(),
        }
    }
}

} // verus!
