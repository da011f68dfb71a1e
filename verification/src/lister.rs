//! The list phase: one request, and the listing read from its reply.

use crate::config::{Config, ConfigError};
use crate::decode::{listing_of_body, parse_list};
use crate::exchange::{bearer, bearer_header, is_success, status_is_success, Method, Request};
use crate::locator::{parse_url, url_serialization};
use crate::model::{DecodeError, Listing, ResponseData};
use vstd::prelude::*;
use vstd::string::*;

verus! {

/// What ends a run before any deletion.
#[derive(Debug, PartialEq, Eq)]
pub enum Fatal {
    /// A required setting is missing.
    Config(ConfigError),
    /// The list request got no response; the text says why.
    Transport(String),
    /// An address is malformed, or the list response holds no listing.
    Decode(DecodeError),
}

/// What came back for the list request.
#[derive(Debug)]
pub enum ListReply {
    /// No response; the text says why.
    Failed(String),
    Response { status: u16, body: String },
}

/// A listing, and the status of the response that carried it where that was no
/// success.
#[derive(Debug)]
pub struct Listed {
    pub data: ResponseData,
    pub advisory: Option<u16>,
}

/// The address of the list request before it is parsed: the base and the
/// filter, one after the other.
pub open spec fn list_address(c: Config) -> Seq<char> {
    c.base_url@ + c.query@
}

/// The list request: a GET with the bearer token to the parsed list address,
/// or an error exactly where that address is malformed.
pub fn list_request(config: &Config) -> (r: Result<Request, DecodeError>)
    ensures
        match r {
            Ok(request) => {
                &&& request.method == Method::Get
                &&& url_serialization(list_address(*config)) == Some(request.url@)
                &&& request.authorization@ == bearer(config.token@)
            },
            Err(e) => e == DecodeError::ListAddress && url_serialization(list_address(*config))
                is None,
        },
{
    let raw = config.base_url.clone().concat(config.query.as_str());
    match parse_url(raw.as_str()) {
        Some(url) => Ok(
            Request {
                method: Method::Get,
                url,
                authorization: bearer_header(config.token.as_str()),
            },
        ),
        None => Err(DecodeError::ListAddress),
    }
}

/// What the list reply comes to: a transport failure is fatal; any response is
/// decoded whatever its status, and a status that is no success is noted
/// beside the listing.
pub open spec fn outcome_of_list(reply: ListReply) -> Result<(Listing, Option<u16>), Fatal> {
    match reply {
        ListReply::Failed(reason) => Err(Fatal::Transport(reason)),
        ListReply::Response { status, body } => match listing_of_body(body@) {
            Err(e) => Err(Fatal::Decode(e)),
            Ok(listing) => Ok(
                (
                    listing,
                    if is_success(status) {
                        None
                    } else {
                        Some(status)
                    },
                ),
            ),
        },
    }
}

/// Reads the listing from the reply to the list request.
pub fn read_list(reply: ListReply) -> (r: Result<Listed, Fatal>)
    ensures
        match r {
            Ok(listed) => outcome_of_list(reply) == Ok::<(Listing, Option<u16>), Fatal>(
                (listed.data@, listed.advisory),
            ),
            Err(fatal) => outcome_of_list(reply) == Err::<(Listing, Option<u16>), Fatal>(fatal),
        },
{
    match reply {
        ListReply::Failed(reason) => Err(Fatal::Transport(reason)),
        ListReply::Response { status, body } => match parse_list(body.as_str()) {
            Err(e) => Err(Fatal::Decode(e)),
            Ok(data) => {
                let advisory = if status_is_success(status) {
                    None
                } else {
                    Some(status)
                };
                Ok(Listed { data, advisory })
            },
        },
    }
}

} // verus!
