//! The listing of inboxes, which is shown only to a client that presents the
//! key.

use vstd::prelude::*;
use vstd::string::StringSliceAdditionalSpecFns;
use crate::bytes::{push_text, same_bytes};
use crate::handlers::{text_bytes, OK_HEAD};
use crate::headers::Headers;

verus! {

/// Sent back to a client that has not presented the key.
pub const UNAUTHORIZED: &'static str = "HTTP/1.1 401 Ok\r\nWWW-Authenticate: Basic\r\n\r\n";

/// What the listing begins with.
pub const LISTING_OPEN: &'static str = "<!DOCTYPE html>\n<html>\n    <body>";

/// What the listing ends with.
pub const LISTING_CLOSE: &'static str = "</body></html>";

/// The name of the header that holds the key.
pub open spec fn authorization_name() -> Seq<u8> {
    "Authorization".spec_bytes()
}

/// The client has presented `key`: the header `Authorization` holds it, byte
/// for byte.
pub open spec fn authorized_spec(headers: Option<Map<Seq<u8>, Seq<u8>>>, key: Seq<u8>) -> bool {
    headers matches Some(map) && map.contains_key(authorization_name()) && map[authorization_name()]
        == key
}

/// Whether the client has presented `key`.
pub fn authorized(headers: Option<&Headers>, key: &[u8]) -> (granted: bool)
    ensures
        granted == authorized_spec(
            match headers {
                Some(h) => Some(h@),
                None => None,
            },
            key@,
        ),
{
    match headers {
        Some(map) => match map.get("Authorization".as_bytes()) {
            Some(value) => same_bytes(value.as_slice(), key),
            None => false,
        },
        None => false,
    }
}

/// One inbox of the listing.
#[derive(Debug, PartialEq, Eq)]
pub struct Inbox {
    /// Where the inbox lies below the directory of inboxes.
    pub link: Vec<u8>,
    /// The name under which it is shown.
    pub label: Vec<u8>,
}

/// One link for each of `items`.
pub open spec fn rows(items: Seq<Inbox>) -> Seq<u8>
    decreases items.len(),
{
    if items.len() == 0 {
        Seq::empty()
    } else {
        rows(items.drop_last()) + "<a href=\"/files/static/email/".spec_bytes() + items.last().link@
            + "\">".spec_bytes() + items.last().label@ + "<a><br>".spec_bytes()
    }
}

/// The page that lists `items`.
pub open spec fn listing_spec(items: Seq<Inbox>) -> Seq<u8> {
    LISTING_OPEN.spec_bytes() + rows(items) + LISTING_CLOSE.spec_bytes()
}

/// The page that lists `items`, one link each, in their order.
pub fn listing(items: &[Inbox]) -> (page: Vec<u8>)
    ensures
        page@ == listing_spec(items@),
{
    let mut page: Vec<u8> = Vec::new();
    push_text(&mut page, LISTING_OPEN);
    let mut i: usize = 0;
    assert(items@.take(0) =~= Seq::<Inbox>::empty());
    while i < items.len()
        invariant
            i <= items.len(),
            page@ == LISTING_OPEN.spec_bytes() + rows(items@.take(i as int)),
        decreases items.len() - i,
    {
        push_text(&mut page, "<a href=\"/files/static/email/");
        page.extend_from_slice(items[i].link.as_slice());
        push_text(&mut page, "\">");
        page.extend_from_slice(items[i].label.as_slice());
        push_text(&mut page, "<a><br>");
        proof {
            let upto = items@.take(i + 1);
            assert(upto.drop_last() =~= items@.take(i as int));
            assert(upto.last() == items@[i as int]);
            assert(page@ =~= LISTING_OPEN.spec_bytes() + rows(upto));
        }
        i += 1;
    }
    assert(items@.take(items@.len() as int) =~= items@);
    push_text(&mut page, LISTING_CLOSE);
    page
}

/// What is sent to a client that asks for the inboxes.
#[derive(Debug, PartialEq, Eq)]
pub enum EmailReply {
    /// `UNAUTHORIZED`, and nothing is read from disk.
    Refused(Vec<u8>),
    /// The line of success; the inbox or the listing follows.
    Granted(Vec<u8>),
}

/// Answers a client that asks for the inboxes: the line of success where it
/// has presented `key`, and the challenge in every other case.
pub fn email(headers: Option<&Headers>, key: &[u8]) -> (reply: EmailReply)
    ensures
        match reply {
            EmailReply::Refused(bytes) => !authorized_spec(
                match headers {
                    Some(h) => Some(h@),
                    None => None,
                },
                key@,
            ) && bytes@ == UNAUTHORIZED.spec_bytes(),
            EmailReply::Granted(bytes) => authorized_spec(
                match headers {
                    Some(h) => Some(h@),
                    None => None,
                },
                key@,
            ) && bytes@ == OK_HEAD.spec_bytes(),
        },
{
    if authorized(headers, key) {
        EmailReply::Granted(text_bytes(OK_HEAD))
    } else {
        EmailReply::Refused(text_bytes(UNAUTHORIZED))
    }
}

} // verus!
