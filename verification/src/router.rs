//! Which handler a request goes to, and what is sent back where none takes it.

use vstd::prelude::*;
use vstd::string::StringSliceAdditionalSpecFns;
use crate::bytes::{push_text, same_bytes, spells, spells_word};
use crate::request::{method_spec, protocol_spec, HttpRequest};

verus! {

/// The protocol token that requests are expected to carry.
pub const PROTOCOL: &'static str = "HTTP/1.1";

/// The token that stands for a protocol left out.
pub const NO_PROTOCOL: &'static str = "undefined";

/// Sent back where the method is none of the three that are served.
pub const METHOD_NOT_ALLOWED: &'static str =
    "HTTP/1.1 405 Method Not Allowed\r\n\r\nUnknown request method. Allowed methods: \"GET\", \"PUT\", \"DELETE\".\r\n";

/// Sent back where the request line cannot be read.
pub const BAD_REQUEST: &'static str =
    "HTTP/1.1 400 Bad Request\r\n\r\nUnknown request method. Allowed methods: \"GET\", \"PUT\", \"DELETE\".\r\n";

/// The method of a request.
#[derive(Debug, PartialEq, Eq)]
pub enum Method {
    Get,
    Put,
    Delete,
    /// Any other method, as it was received.
    Other(Vec<u8>),
}

/// `raw` names the method `word`, whatever the case of its letters and the
/// white space around it, that of Unicode included. Folding the letters of
/// ASCII is enough for the three methods: no other letter folds to one of
/// theirs.
pub open spec fn names_method(raw: Seq<u8>, word: &str) -> bool {
    spells(raw, word.spec_bytes())
}

/// Tells the method that `raw` names.
pub fn classify(raw: &[u8]) -> (method: Method)
    ensures
        match method {
            Method::Get => names_method(raw@, "get"),
            Method::Put => !names_method(raw@, "get") && names_method(raw@, "put"),
            Method::Delete => !names_method(raw@, "get") && !names_method(raw@, "put")
                && names_method(raw@, "delete"),
            Method::Other(kept) => !names_method(raw@, "get") && !names_method(raw@, "put")
                && !names_method(raw@, "delete") && kept@ == raw@,
        },
{
    if spells_word(raw, "get".as_bytes()) {
        Method::Get
    } else if spells_word(raw, "put".as_bytes()) {
        Method::Put
    } else if spells_word(raw, "delete".as_bytes()) {
        Method::Delete
    } else {
        let mut kept: Vec<u8> = Vec::new();
        kept.extend_from_slice(raw);
        Method::Other(kept)
    }
}

/// Where a request goes.
#[derive(Clone, Copy, Debug, PartialEq, Eq, Structural)]
pub enum Dispatch {
    /// To the handler of downloads and pages.
    Get,
    /// To the handler of uploads.
    Put,
    /// To the handler of deletions.
    Delete,
    /// Nowhere: the method is not served.
    MethodNotAllowed,
    /// Nowhere: the request line gives no method or no protocol.
    BadRequest,
    /// Nowhere: the protocol token is not accepted. The request is logged and
    /// the connection closed; nothing is sent back.
    UnknownProtocol,
}

/// `protocol` is a token that the router accepts.
pub open spec fn accepted_protocol(protocol: Seq<u8>) -> bool {
    protocol == PROTOCOL.spec_bytes() || protocol == NO_PROTOCOL.spec_bytes()
}

/// Where a request with this protocol and this method goes.
pub open spec fn dispatch_spec(protocol: Option<Seq<u8>>, method: Option<Seq<u8>>) -> Dispatch {
    match (protocol, method) {
        (Some(protocol), Some(method)) => if !accepted_protocol(protocol) {
            Dispatch::UnknownProtocol
        } else if names_method(method, "get") {
            Dispatch::Get
        } else if names_method(method, "put") {
            Dispatch::Put
        } else if names_method(method, "delete") {
            Dispatch::Delete
        } else {
            Dispatch::MethodNotAllowed
        },
        (Some(protocol), None) => if accepted_protocol(protocol) {
            Dispatch::BadRequest
        } else {
            Dispatch::UnknownProtocol
        },
        (None, _) => Dispatch::BadRequest,
    }
}

/// Where a request with this protocol and this method goes.
pub fn dispatch(protocol: Option<&[u8]>, method: Option<&[u8]>) -> (to: Dispatch)
    ensures
        to == dispatch_spec(
            match protocol {
                Some(p) => Some(p@),
                None => None,
            },
            match method {
                Some(m) => Some(m@),
                None => None,
            },
        ),
{
    match protocol {
        None => Dispatch::BadRequest,
        Some(protocol) => {
            if !same_bytes(protocol, PROTOCOL.as_bytes()) && !same_bytes(
                protocol,
                NO_PROTOCOL.as_bytes(),
            ) {
                return Dispatch::UnknownProtocol;
            }
            match method {
                None => Dispatch::BadRequest,
                Some(method) => match classify(method) {
                    Method::Get => Dispatch::Get,
                    Method::Put => Dispatch::Put,
                    Method::Delete => Dispatch::Delete,
                    Method::Other(_) => Dispatch::MethodNotAllowed,
                },
            }
        },
    }
}

/// Where the request that `request` has read goes. Until the request line is
/// complete this is `Dispatch::BadRequest`.
pub fn handle_connection(request: &HttpRequest) -> (to: Dispatch)
    requires
        request.wf(),
    ensures
        to == dispatch_spec(protocol_spec(request@), method_spec(request@)),
{
    let protocol = request.protocol();
    let method = request.method();
    dispatch(
        match &protocol {
            Some(p) => Some(p.as_slice()),
            None => None,
        },
        match &method {
            Some(m) => Some(m.as_slice()),
            None => None,
        },
    )
}

/// What is sent back to a request that goes to no handler: a reply for a
/// method that is not served and for a request line that cannot be read,
/// and nothing for a protocol that is not accepted.
pub open spec fn refusal_spec(to: Dispatch) -> Option<Seq<u8>> {
    match to {
        Dispatch::MethodNotAllowed => Some(METHOD_NOT_ALLOWED.spec_bytes()),
        Dispatch::BadRequest => Some(BAD_REQUEST.spec_bytes()),
        _ => None,
    }
}

/// What is sent back to a request that goes to no handler. Nothing is sent
/// back where the protocol is not accepted, and this function has nothing
/// for a request that goes to a handler.
pub fn refusal(to: Dispatch) -> (reply: Option<Vec<u8>>)
    ensures
        match reply {
            Some(bytes) => refusal_spec(to) == Some(bytes@),
            None => refusal_spec(to).is_none(),
        },
{
    let text: &str = match to {
        Dispatch::MethodNotAllowed => METHOD_NOT_ALLOWED,
        Dispatch::BadRequest => BAD_REQUEST,
        _ => {
            return None;
        },
    };
    let mut bytes: Vec<u8> = Vec::new();
    push_text(&mut bytes, text);
    assert(bytes@ =~= text.spec_bytes());
    Some(bytes)
}

} // verus!
