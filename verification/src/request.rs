//! The reader of one request: it takes what each read of the connection gave,
//! one byte at a time, and delimits the request line and the header block.

use vstd::prelude::*;
use vstd::string::StringSliceAdditionalSpecFns;
use vstd::utf8::valid_utf8;
use crate::bytes::{is_utf8, split_at_first, split_once};
use crate::diagnostics::{incoming, outgoing, push_incoming, push_outgoing};
use crate::headers::{header_map, lines, pairs_on, parse_headers, Headers};
use crate::separator::{run, PacketSeparatorState, CR, LF};
use crate::utf8::{lemma_fields_are_utf8, lemma_headers_are_utf8};

verus! {

/// How many failed reads the header block is given before the reader stops
/// waiting for its end. A peer that never ends its header block would
/// otherwise hold the reader for ever.
pub const MAX_STALLED_READS: usize = 100;

/// How many bytes of what was sent back are kept for display.
pub const LOG_CAPACITY: usize = 500;

/// What the reader is gathering.
#[derive(Clone, Copy, Debug, PartialEq, Eq, Structural)]
pub enum Phase {
    /// The request line, up to its line end.
    RequestLine,
    /// The header block, up to the blank line.
    HeaderBlock,
    /// Nothing more: what the connection holds now is the body.
    Body,
}

/// The reader as contracts see it.
pub struct RequestView {
    pub phase: Phase,
    /// The request line as gathered so far, without carriage returns.
    pub line: Seq<u8>,
    /// Whether the byte read last in the request line was a carriage return.
    pub after_return: bool,
    /// The header block as gathered so far, a zero byte for each failed read.
    pub block: Seq<u8>,
    /// Failed reads during the header block.
    pub stalled: nat,
    /// What was kept of the bytes sent back.
    pub response: Seq<u8>,
    /// Whether more was sent back than was kept.
    pub truncated: bool,
}

/// The reader after one read during the request line. A failed read ends the
/// line, and so does a line feed right after a carriage return; carriage
/// returns are not kept.
pub open spec fn feed_line(v: RequestView, read: Option<u8>) -> RequestView {
    match read {
        None => RequestView { phase: Phase::HeaderBlock, ..v },
        Some(byte) => if byte == CR {
            RequestView { after_return: true, ..v }
        } else if v.after_return && byte == LF {
            RequestView { phase: Phase::HeaderBlock, ..v }
        } else {
            RequestView { after_return: false, line: v.line.push(byte), ..v }
        },
    }
}

/// The reader after one read during the header block. A failed read counts
/// as a zero byte. The block ends when the blank line is found, or when the
/// failed reads reach `MAX_STALLED_READS`.
pub open spec fn feed_block(v: RequestView, read: Option<u8>) -> RequestView {
    let byte = match read {
        Some(byte) => byte,
        None => 0u8,
    };
    let stalled = if read.is_none() {
        v.stalled + 1
    } else {
        v.stalled
    };
    let block = v.block.push(byte);
    let phase = if run(block) == PacketSeparatorState::SecondNewline || stalled
        >= MAX_STALLED_READS {
        Phase::Body
    } else {
        Phase::HeaderBlock
    };
    RequestView { phase, block, stalled, ..v }
}

/// The reader after one read. Once the body is reached a read changes nothing.
pub open spec fn feed_view(v: RequestView, read: Option<u8>) -> RequestView {
    match v.phase {
        Phase::RequestLine => feed_line(v, read),
        Phase::HeaderBlock => feed_block(v, read),
        Phase::Body => v,
    }
}

/// The reader after each byte of `bytes` was read in turn.
pub open spec fn feed_bytes(v: RequestView, bytes: Seq<u8>) -> RequestView
    decreases bytes.len(),
{
    if bytes.len() == 0 {
        v
    } else {
        feed_view(feed_bytes(v, bytes.drop_last()), Some(bytes.last()))
    }
}

/// A reader that has read nothing and recorded nothing.
pub open spec fn fresh() -> RequestView {
    RequestView {
        phase: Phase::RequestLine,
        line: Seq::empty(),
        after_return: false,
        block: Seq::empty(),
        stalled: 0,
        response: Seq::empty(),
        truncated: false,
    }
}

/// `s` without its carriage returns.
pub open spec fn without_returns(s: Seq<u8>) -> Seq<u8>
    decreases s.len(),
{
    if s.len() == 0 {
        Seq::empty()
    } else if s.last() == CR {
        without_returns(s.drop_last())
    } else {
        without_returns(s.drop_last()).push(s.last())
    }
}

/// `s` holds no line end: nowhere in it does a line feed follow a carriage
/// return.
pub open spec fn has_no_line_end(s: Seq<u8>) -> bool {
    forall|i: int| 0 <= i && i + 1 < s.len() ==> !(#[trigger] s[i] == CR && s[i + 1] == LF)
}

/// A single space, which parts the three fields of a request line.
pub open spec fn space() -> Seq<u8> {
    seq![32u8]
}

/// The request line, once it is complete and well-formed UTF-8.
pub open spec fn request_line(v: RequestView) -> Option<Seq<u8>> {
    if v.phase != Phase::RequestLine && valid_utf8(v.line) {
        Some(v.line)
    } else {
        None
    }
}

/// The method on a request line: what stands before its first space.
pub open spec fn method_of(line: Seq<u8>) -> Option<Seq<u8>> {
    match split_once(line, space()) {
        Some(fields) => Some(fields.0),
        None => None,
    }
}

/// The path on a request line: what stands between its first two spaces.
pub open spec fn path_of(line: Seq<u8>) -> Option<Seq<u8>> {
    match split_once(line, space()) {
        Some(fields) => match split_once(fields.1, space()) {
            Some(rest) => Some(rest.0),
            None => None,
        },
        None => None,
    }
}

/// The protocol on a request line: what stands after its second space.
pub open spec fn protocol_of(line: Seq<u8>) -> Option<Seq<u8>> {
    match split_once(line, space()) {
        Some(fields) => match split_once(fields.1, space()) {
            Some(rest) => Some(rest.1),
            None => None,
        },
        None => None,
    }
}

/// The method of the request, once its line is complete.
pub open spec fn method_spec(v: RequestView) -> Option<Seq<u8>> {
    match request_line(v) {
        Some(line) => method_of(line),
        None => None,
    }
}

/// The path of the request, once its line is complete.
pub open spec fn path_spec(v: RequestView) -> Option<Seq<u8>> {
    match request_line(v) {
        Some(line) => path_of(line),
        None => None,
    }
}

/// The protocol of the request, once its line is complete.
pub open spec fn protocol_spec(v: RequestView) -> Option<Seq<u8>> {
    match request_line(v) {
        Some(line) => protocol_of(line),
        None => None,
    }
}

/// The headers, once the blank line was found and the block is well-formed
/// UTF-8.
pub open spec fn headers_of(v: RequestView) -> Option<Map<Seq<u8>, Seq<u8>>> {
    if v.phase == Phase::Body && run(v.block) == PacketSeparatorState::SecondNewline
        && valid_utf8(v.block) {
        Some(header_map(v.block))
    } else {
        None
    }
}

/// The pairs that the headers are shown from: every pair received, in the
/// order received, once the headers can be had. A name received more than
/// once is shown once, with the value received last.
pub open spec fn shown_pairs(v: RequestView) -> Seq<(Seq<u8>, Seq<u8>)> {
    if headers_of(v).is_some() {
        pairs_on(lines(v.block))
    } else {
        Seq::empty()
    }
}

/// The text that shows a request and what was sent back to it.
pub open spec fn describe_spec(v: RequestView) -> Seq<u8> {
    incoming(request_line(v), shown_pairs(v)) + outgoing(v.response, v.truncated)
}

/// What is kept of a record `kept` after `data` was sent: `data` is added as
/// far as `LOG_CAPACITY` allows, and nothing once the record was cut short.
pub open spec fn record(kept: Seq<u8>, truncated: bool, data: Seq<u8>) -> Seq<u8> {
    if truncated || kept.len() >= LOG_CAPACITY {
        kept
    } else if kept.len() + data.len() <= LOG_CAPACITY {
        kept + data
    } else {
        kept + data.take(LOG_CAPACITY - kept.len())
    }
}

/// What holds of the reader at every moment: the header block is not begun
/// before the request line has ended, it is gathered only while the blank
/// line is not found and failed reads are left, the body is reached for one
/// of these two reasons, and the record is within its capacity.
pub open spec fn consistent(v: RequestView) -> bool {
    &&& v.stalled <= MAX_STALLED_READS
    &&& v.response.len() <= LOG_CAPACITY
    &&& v.phase == Phase::RequestLine ==> v.block.len() == 0 && v.stalled == 0
    &&& v.phase == Phase::HeaderBlock ==> v.stalled < MAX_STALLED_READS && run(v.block)
        != PacketSeparatorState::SecondNewline
    &&& v.phase == Phase::Body ==> run(v.block) == PacketSeparatorState::SecondNewline || v.stalled
        == MAX_STALLED_READS
}

/// The reader after `n` failed reads in a row.
pub open spec fn after_failures(v: RequestView, n: nat) -> RequestView
    decreases n,
{
    if n == 0 {
        v
    } else {
        feed_view(after_failures(v, (n - 1) as nat), None)
    }
}

/// The reader of one request.
pub struct HttpRequest {
    phase: Phase,
    line: Vec<u8>,
    after_return: bool,
    line_ok: bool,
    block: Vec<u8>,
    detector: PacketSeparatorState,
    stalled: usize,
    headers: Option<Headers>,
    response: Vec<u8>,
    buf_full: bool,
}

impl View for HttpRequest {
    type V = RequestView;

    closed spec fn view(&self) -> RequestView {
        RequestView {
            phase: self.phase,
            line: self.line@,
            after_return: self.after_return,
            block: self.block@,
            stalled: self.stalled as nat,
            response: self.response@,
            truncated: self.buf_full,
        }
    }
}

impl HttpRequest {
    /// What holds of every reader that this module hands out.
    pub closed spec fn wf(&self) -> bool {
        &&& self.detector == run(self.block@)
        &&& self.stalled <= MAX_STALLED_READS
        &&& self.phase == Phase::RequestLine ==> self.block@.len() == 0 && self.stalled == 0
        &&& self.phase == Phase::HeaderBlock ==> self.stalled < MAX_STALLED_READS && self.detector
            != PacketSeparatorState::SecondNewline
        &&& self.phase == Phase::Body ==> self.detector == PacketSeparatorState::SecondNewline
            || self.stalled == MAX_STALLED_READS
        &&& self.phase != Phase::RequestLine ==> self.line_ok == valid_utf8(self.line@)
        &&& match self.headers {
            Some(h) => headers_of(self@) == Some(h@) && h.received() == pairs_on(
                lines(self.block@),
            ),
            None => headers_of(self@).is_none(),
        }
        &&& self.response@.len() <= LOG_CAPACITY
    }

    /// A reader that has read nothing and recorded nothing.
    pub fn new() -> (request: Self)
        ensures
            request.wf(),
            request@ == fresh(),
    {
        HttpRequest {
            phase: Phase::RequestLine,
            line: Vec::new(),
            after_return: false,
            line_ok: false,
            block: Vec::new(),
            detector: PacketSeparatorState::Searching,
            stalled: 0,
            headers: None,
            response: Vec::new(),
            buf_full: false,
        }
    }

    /// What holds of every reader holds of this one.
    pub proof fn lemma_consistent(&self)
        requires
            self.wf(),
        ensures
            consistent(self@),
    {
    }

    /// What the reader is gathering. While this is not `Phase::Body` the
    /// reader asks for one more read of one byte.
    pub fn phase(&self) -> (phase: Phase)
        ensures
            phase == self@.phase,
    {
        self.phase
    }

    /// Takes what one read of one byte gave: the byte, or nothing where the
    /// read failed or timed out.
    pub fn feed(&mut self, read: Option<u8>)
        requires
            old(self).wf(),
        ensures
            final(self).wf(),
            final(self)@ == feed_view(old(self)@, read),
    {
        match self.phase {
            Phase::RequestLine => {
                match read {
                    None => {
                        self.line_ok = is_utf8(self.line.as_slice());
                        self.phase = Phase::HeaderBlock;
                    },
                    Some(byte) => {
                        if byte == CR {
                            self.after_return = true;
                        } else if self.after_return && byte == LF {
                            self.line_ok = is_utf8(self.line.as_slice());
                            self.phase = Phase::HeaderBlock;
                        } else {
                            self.after_return = false;
                            self.line.push(byte);
                        }
                    },
                }
            },
            Phase::HeaderBlock => {
                let byte: u8 = match read {
                    Some(byte) => byte,
                    None => 0u8,
                };
                if read.is_none() {
                    self.stalled = self.stalled + 1;
                }
                let ghost before = self.block@;
                self.block.push(byte);
                self.detector = self.detector.step(&byte);
                assert(self.block@.drop_last() =~= before);
                assert(self.detector == run(self.block@));
                if self.detector.is_done() {
                    self.headers = parse_headers(self.block.as_slice());
                    self.phase = Phase::Body;
                } else if self.stalled >= MAX_STALLED_READS {
                    self.phase = Phase::Body;
                }
            },
            Phase::Body => {},
        }
    }

    /// Feeds the bytes of `bytes` in turn for as long as the reader asks for
    /// more, and returns how many it took. What follows them in `bytes` is
    /// the beginning of the body.
    pub fn feed_all(&mut self, bytes: &[u8]) -> (taken: usize)
        requires
            old(self).wf(),
        ensures
            final(self).wf(),
            taken <= bytes@.len(),
            final(self)@ == feed_bytes(old(self)@, bytes@.take(taken as int)),
            taken < bytes@.len() ==> final(self)@.phase == Phase::Body,
            forall|n: int|
                0 <= n < taken ==> (#[trigger] feed_bytes(old(self)@, bytes@.take(n))).phase
                    != Phase::Body,
    {
        let mut taken: usize = 0;
        assert(bytes@.take(0) =~= Seq::<u8>::empty());
        while taken < bytes.len() && !self.at_body()
            invariant
                self.wf(),
                taken <= bytes@.len(),
                self@ == feed_bytes(old(self)@, bytes@.take(taken as int)),
                forall|n: int|
                    0 <= n < taken ==> (#[trigger] feed_bytes(old(self)@, bytes@.take(n))).phase
                        != Phase::Body,
            decreases bytes@.len() - taken,
        {
            assert(bytes@.take(taken + 1).drop_last() =~= bytes@.take(taken as int));
            self.feed(Some(bytes[taken]));
            taken += 1;
        }
        taken
    }

    /// Whether the reader has reached the body and asks for no more reads.
    pub fn at_body(&self) -> (at_body: bool)
        ensures
            at_body == (self@.phase == Phase::Body),
    {
        match self.phase {
            Phase::Body => true,
            _ => false,
        }
    }

    /// The method of the request: what its line holds before the first space.
    /// There is none while the line is incomplete, where it is not
    /// well-formed UTF-8, and where it has no space. A method that is there
    /// is well-formed UTF-8.
    pub fn method(&self) -> (method: Option<Vec<u8>>)
        requires
            self.wf(),
        ensures
            match method {
                Some(m) => method_spec(self@) == Some(m@) && valid_utf8(m@),
                None => method_spec(self@).is_none(),
            },
    {
        proof {
            if request_line(self@).is_some() {
                lemma_fields_are_utf8(self.line@);
            }
        }
        match self.fields() {
            Some((method, _)) => Some(method),
            None => None,
        }
    }

    /// The path of the request, as received: what its line holds between
    /// the first two spaces.
    pub fn path(&self) -> (path: Option<Vec<u8>>)
        requires
            self.wf(),
        ensures
            match path {
                Some(p) => path_spec(self@) == Some(p@) && valid_utf8(p@),
                None => path_spec(self@).is_none(),
            },
    {
        proof {
            if request_line(self@).is_some() {
                lemma_fields_are_utf8(self.line@);
            }
        }
        match self.fields() {
            Some((_, rest)) => {
                let sep = single_space();
                match split_at_first(rest.as_slice(), sep.as_slice()) {
                    Some((path, _)) => Some(path),
                    None => None,
                }
            },
            None => None,
        }
    }

    /// The protocol of the request: what its line holds after the second
    /// space.
    pub fn protocol(&self) -> (protocol: Option<Vec<u8>>)
        requires
            self.wf(),
        ensures
            match protocol {
                Some(p) => protocol_spec(self@) == Some(p@) && valid_utf8(p@),
                None => protocol_spec(self@).is_none(),
            },
    {
        proof {
            if request_line(self@).is_some() {
                lemma_fields_are_utf8(self.line@);
            }
        }
        match self.fields() {
            Some((_, rest)) => {
                let sep = single_space();
                match split_at_first(rest.as_slice(), sep.as_slice()) {
                    Some((_, protocol)) => Some(protocol),
                    None => None,
                }
            },
            None => None,
        }
    }

    /// The request line cut at its first space.
    fn fields(&self) -> (fields: Option<(Vec<u8>, Vec<u8>)>)
        requires
            self.wf(),
        ensures
            match fields {
                Some((first, rest)) => request_line(self@) matches Some(line) && split_once(
                    line,
                    space(),
                ) == Some((first@, rest@)),
                None => request_line(self@) matches Some(line) ==> split_once(line, space())
                    .is_none(),
            },
    {
        match self.phase {
            Phase::RequestLine => None,
            _ => {
                if self.line_ok {
                    let sep = single_space();
                    split_at_first(self.line.as_slice(), sep.as_slice())
                } else {
                    None
                }
            },
        }
    }

    /// The headers of the request. There are none until the blank line that
    /// ends them was read, and none where the block is not well-formed UTF-8.
    pub fn headers(&self) -> (headers: Option<&Headers>)
        requires
            self.wf(),
        ensures
            match headers {
                Some(h) => headers_of(self@) == Some(h@) && forall|name: Seq<u8>|
                    #[trigger] h@.contains_key(name) ==> valid_utf8(name) && valid_utf8(h@[name]),
                None => headers_of(self@).is_none(),
            },
    {
        let headers = self.headers.as_ref();
        proof {
            if let Some(h) = headers {
                assert(h@ == header_map(self.block@));
                assert forall|name: Seq<u8>| #[trigger] h@.contains_key(name) implies valid_utf8(
                    name,
                ) && valid_utf8(h@[name]) by {
                    lemma_headers_are_utf8(self.block@, name);
                }
            }
        }
        headers
    }

    /// Whether the whole head of the request was read and its headers can be
    /// had.
    pub fn read_all(&self) -> (done: Option<()>)
        requires
            self.wf(),
        ensures
            done.is_some() == headers_of(self@).is_some(),
    {
        match self.headers {
            Some(_) => Some(()),
            None => None,
        }
    }

    /// The text that shows the request and what was sent back to it, for a
    /// log. The body is not shown.
    pub fn describe(&self) -> (text: Vec<u8>)
        requires
            self.wf(),
        ensures
            text@ == describe_spec(self@),
    {
        let mut text: Vec<u8> = Vec::new();
        let line: Option<&[u8]> = match self.phase {
            Phase::RequestLine => None,
            _ => {
                if self.line_ok {
                    Some(self.line.as_slice())
                } else {
                    None
                }
            },
        };
        push_incoming(&mut text, line, self.headers.as_ref());
        push_outgoing(&mut text, self.response.as_slice(), self.buf_full);
        assert(text@ =~= describe_spec(self@));
        text
    }

    /// Records `data` as sent back to the peer.
    pub fn respond_data(&mut self, data: &[u8])
        requires
            old(self).wf(),
        ensures
            final(self).wf(),
            final(self)@ == (RequestView {
                response: record(old(self)@.response, old(self)@.truncated, data@),
                truncated: old(self)@.truncated || old(self)@.response.len() + data@.len()
                    > LOG_CAPACITY,
                ..old(self)@
            }),
    {
        if !self.buf_full {
            let ghost kept = self.response@;
            let mut i: usize = 0;
            while i < data.len() && self.response.len() < LOG_CAPACITY
                invariant
                    i <= data@.len(),
                    self.response@ == kept + data@.take(i as int),
                    self.response@.len() <= LOG_CAPACITY,
                    self.phase == old(self).phase,
                    self.line == old(self).line,
                    self.after_return == old(self).after_return,
                    self.line_ok == old(self).line_ok,
                    self.block == old(self).block,
                    self.detector == old(self).detector,
                    self.stalled == old(self).stalled,
                    self.headers == old(self).headers,
                    self.buf_full == old(self).buf_full,
                decreases data@.len() - i,
            {
                self.response.push(data[i]);
                assert(data@.take(i + 1) =~= data@.take(i as int).push(data@[i as int]));
                assert(self.response@ =~= kept + data@.take(i + 1));
                i += 1;
            }
            if i < data.len() {
                self.buf_full = true;
            }
            assert(data@.take(data@.len() as int) =~= data@);
            assert(self.response@ =~= record(kept, false, data@));
        }
    }

    /// Records the bytes of `data` as sent back to the peer.
    pub fn respond_string(&mut self, data: &str)
        requires
            old(self).wf(),
        ensures
            final(self).wf(),
            final(self)@ == (RequestView {
                response: record(old(self)@.response, old(self)@.truncated, data.spec_bytes()),
                truncated: old(self)@.truncated || old(self)@.response.len() + data.spec_bytes().len()
                    > LOG_CAPACITY,
                ..old(self)@
            }),
    {
        self.respond_data(data.as_bytes());
    }
}

/// A vector that holds one space.
fn single_space() -> (sep: Vec<u8>)
    ensures
        sep@ == space(),
{
    let mut sep: Vec<u8> = Vec::new();
    sep.push(32u8);
    assert(sep@ =~= space());
    sep
}

/// Reading one run of bytes and then another is reading both in a row.
pub proof fn lemma_feed_bytes_concat(v: RequestView, first: Seq<u8>, second: Seq<u8>)
    ensures
        feed_bytes(v, first + second) == feed_bytes(feed_bytes(v, first), second),
    decreases second.len(),
{
    if second.len() == 0 {
        assert(first + second =~= first);
    } else {
        lemma_feed_bytes_concat(v, first, second.drop_last());
        assert((first + second).drop_last() =~= first + second.drop_last());
    }
}

/// Once the request line is complete no read changes it, nor the method,
/// path and protocol taken from it.
pub proof fn lemma_line_is_read_once(v: RequestView, read: Option<u8>)
    requires
        v.phase != Phase::RequestLine,
    ensures
        feed_view(v, read).phase != Phase::RequestLine,
        feed_view(v, read).line == v.line,
        request_line(feed_view(v, read)) == request_line(v),
        method_spec(feed_view(v, read)) == method_spec(v),
        path_spec(feed_view(v, read)) == path_spec(v),
        protocol_spec(feed_view(v, read)) == protocol_spec(v),
{
}

/// Once the body is reached no read changes the reader: what it has parsed
/// stays as it is, whatever the connection gives next.
pub proof fn lemma_head_is_read_once(v: RequestView, bytes: Seq<u8>)
    requires
        v.phase == Phase::Body,
    ensures
        feed_bytes(v, bytes) == v,
        headers_of(feed_bytes(v, bytes)) == headers_of(v),
    decreases bytes.len(),
{
    if bytes.len() > 0 {
        lemma_head_is_read_once(v, bytes.drop_last());
    }
}

/// Bytes that hold no line end are gathered into the request line, all but
/// the carriage returns among them.
pub proof fn lemma_line_gathers(v: RequestView, text: Seq<u8>)
    requires
        v.phase == Phase::RequestLine,
        has_no_line_end(text),
        v.after_return ==> text.len() == 0 || text[0] != LF,
    ensures
        feed_bytes(v, text) == (RequestView {
            line: v.line + without_returns(text),
            after_return: if text.len() == 0 {
                v.after_return
            } else {
                text.last() == CR
            },
            ..v
        }),
    decreases text.len(),
{
    if text.len() == 0 {
        assert(v.line + without_returns(text) =~= v.line);
    } else {
        let before = text.drop_last();
        assert(forall|i: int| 0 <= i < before.len() ==> before[i] == text[i]);
        assert(has_no_line_end(before)) by {
            assert forall|i: int| 0 <= i && i + 1 < before.len() implies !(#[trigger] before[i]
                == CR && before[i + 1] == LF) by {
                assert(!(text[i] == CR && text[i + 1] == LF));
            }
        }
        lemma_line_gathers(v, before);
        if before.len() > 0 {
            let at = before.len() - 1;
            assert(!(text[at] == CR && text[at + 1] == LF));
        }
        if text.last() != CR {
            assert(v.line + without_returns(text) =~= (v.line + without_returns(before)).push(
                text.last(),
            ));
        }
    }
}

/// A line that holds no line end, followed by a carriage return and a line
/// feed, is read as the request line, without its carriage returns, and the
/// header block begins right after it.
pub proof fn lemma_reads_line(text: Seq<u8>)
    requires
        has_no_line_end(text),
    ensures
        feed_bytes(fresh(), text + seq![CR, LF]) == (RequestView {
            phase: Phase::HeaderBlock,
            line: without_returns(text),
            after_return: true,
            ..fresh()
        }),
{
    lemma_line_gathers(fresh(), text);
    assert(fresh().line + without_returns(text) =~= without_returns(text));
    let with_return = text.push(CR);
    let whole = text + seq![CR, LF];
    assert(whole.drop_last() =~= with_return);
    assert(with_return.drop_last() =~= text);
    assert(whole.last() == LF);
    assert(with_return.last() == CR);
    let gathered = feed_bytes(fresh(), text);
    assert(feed_bytes(fresh(), with_return) == feed_view(gathered, Some(CR)));
    assert(feed_bytes(fresh(), whole) == feed_view(feed_bytes(fresh(), with_return), Some(LF)));
}

/// Bytes on whose last the detector ends, and not before, are gathered
/// into the header block as they are, and the body begins right after them.
pub proof fn lemma_reads_block(v: RequestView, block: Seq<u8>)
    requires
        v.phase == Phase::HeaderBlock,
        v.block.len() == 0,
        v.stalled < MAX_STALLED_READS,
        run(block) == PacketSeparatorState::SecondNewline,
        forall|n: int|
            0 <= n < block.len() ==> run(#[trigger] block.take(n))
                != PacketSeparatorState::SecondNewline,
    ensures
        feed_bytes(v, block) == (RequestView { phase: Phase::Body, block, ..v }),
{
    assert(block.take(block.len() as int) =~= block);
    lemma_block_gathers(v, block, block.len() as int);
}

/// The header block after the first `n` bytes of `block` were read.
proof fn lemma_block_gathers(v: RequestView, block: Seq<u8>, n: int)
    requires
        v.phase == Phase::HeaderBlock,
        v.block.len() == 0,
        v.stalled < MAX_STALLED_READS,
        0 <= n <= block.len(),
        forall|k: int|
            0 <= k < n ==> run(#[trigger] block.take(k)) != PacketSeparatorState::SecondNewline,
    ensures
        feed_bytes(v, block.take(n)) == (RequestView {
            phase: if run(block.take(n)) == PacketSeparatorState::SecondNewline {
                Phase::Body
            } else {
                Phase::HeaderBlock
            },
            block: block.take(n),
            ..v
        }),
    decreases n,
{
    if n == 0 {
        assert(block.take(0) =~= v.block);
    } else {
        lemma_block_gathers(v, block, n - 1);
        assert(block.take(n).drop_last() =~= block.take(n - 1));
        assert(block.take(n - 1).push(block.take(n).last()) =~= block.take(n));
    }
}

/// A whole head is read as it stands: after a request line that holds no
/// line end, its line end, and a header block on whose last byte the
/// detector ends, the reader is at the body, and it holds the line without
/// its carriage returns, and the block. Whatever follows is left to the
/// body.
pub proof fn lemma_reads_head(text: Seq<u8>, block: Seq<u8>, body: Seq<u8>)
    requires
        has_no_line_end(text),
        run(block) == PacketSeparatorState::SecondNewline,
        forall|n: int|
            0 <= n < block.len() ==> run(#[trigger] block.take(n))
                != PacketSeparatorState::SecondNewline,
    ensures
        feed_bytes(fresh(), text + seq![CR, LF] + block + body) == (RequestView {
            phase: Phase::Body,
            line: without_returns(text),
            after_return: true,
            block,
            ..fresh()
        }),
{
    let after_line = RequestView {
        phase: Phase::HeaderBlock,
        line: without_returns(text),
        after_return: true,
        ..fresh()
    };
    lemma_reads_line(text);
    lemma_feed_bytes_concat(fresh(), text + seq![CR, LF], block);
    lemma_reads_block(after_line, block);
    lemma_feed_bytes_concat(fresh(), text + seq![CR, LF] + block, body);
    lemma_head_is_read_once(feed_bytes(after_line, block), body);
}

/// A line without a carriage return is kept as it is.
pub proof fn lemma_without_returns_keeps(text: Seq<u8>)
    requires
        forall|i: int| 0 <= i < text.len() ==> text[i] != CR,
    ensures
        without_returns(text) == text,
        has_no_line_end(text),
    decreases text.len(),
{
    if text.len() > 0 {
        lemma_without_returns_keeps(text.drop_last());
        assert(text.drop_last().push(text.last()) =~= text);
    }
}

/// No read brings the reader into a state that `consistent` rules out.
pub proof fn lemma_feed_keeps_consistent(v: RequestView, read: Option<u8>)
    requires
        consistent(v),
    ensures
        consistent(feed_view(v, read)),
{
    if v.phase == Phase::RequestLine {
        assert(run(v.block) == PacketSeparatorState::Searching);
    }
}

/// A run of failed reads is counted, and ends the header block where the
/// count reaches `MAX_STALLED_READS`.
proof fn lemma_failures_count(v: RequestView, n: nat)
    requires
        consistent(v),
        v.phase == Phase::HeaderBlock,
    ensures
        consistent(after_failures(v, n)),
        after_failures(v, n).phase != Phase::RequestLine,
        after_failures(v, n).phase == Phase::HeaderBlock ==> after_failures(v, n).stalled
            == v.stalled + n,
    decreases n,
{
    if n > 0 {
        let before = after_failures(v, (n - 1) as nat);
        lemma_failures_count(v, (n - 1) as nat);
        lemma_feed_keeps_consistent(before, None);
    }
}

/// The reader never waits for ever on a peer that sends nothing: from
/// whatever state, one failed read more than `MAX_STALLED_READS` brings it
/// to the body.
pub proof fn lemma_silence_ends_the_head(v: RequestView)
    requires
        consistent(v),
    ensures
        after_failures(v, (MAX_STALLED_READS + 1) as nat).phase == Phase::Body,
{
    let n = (MAX_STALLED_READS + 1) as nat;
    lemma_failures_shift(v, MAX_STALLED_READS as nat);
    let first = feed_view(v, None);
    lemma_feed_keeps_consistent(v, None);
    if first.phase == Phase::HeaderBlock {
        lemma_failures_count(first, MAX_STALLED_READS as nat);
    } else {
        lemma_body_stays(first, MAX_STALLED_READS as nat);
    }
}

/// One failed read and then `n` more are `n + 1` failed reads.
proof fn lemma_failures_shift(v: RequestView, n: nat)
    ensures
        after_failures(v, n + 1) == after_failures(feed_view(v, None), n),
    decreases n,
{
    if n > 0 {
        lemma_failures_shift(v, (n - 1) as nat);
        assert(after_failures(v, n + 1) == feed_view(after_failures(v, n), None));
    } else {
        assert(after_failures(v, 1) == feed_view(after_failures(v, 0), None));
    }
}

/// At the body failed reads change nothing.
proof fn lemma_body_stays(v: RequestView, n: nat)
    requires
        v.phase == Phase::Body,
    ensures
        after_failures(v, n) == v,
    decreases n,
{
    if n > 0 {
        lemma_body_stays(v, (n - 1) as nat);
    }
}

/// What is kept of the bytes sent back begins with what was kept before,
/// is a beginning of all that was sent, and is within the capacity.
pub proof fn lemma_record_is_a_prefix(kept: Seq<u8>, truncated: bool, data: Seq<u8>)
    requires
        kept.len() <= LOG_CAPACITY,
    ensures
        record(kept, truncated, data).len() <= LOG_CAPACITY,
        kept.is_prefix_of(record(kept, truncated, data)),
        record(kept, truncated, data).is_prefix_of(kept + data),
{
    let next = record(kept, truncated, data);
    if !(truncated || kept.len() >= LOG_CAPACITY) && kept.len() + data.len() > LOG_CAPACITY {
        let part = data.take(LOG_CAPACITY - kept.len());
        assert(next =~= kept + part);
        assert(forall|i: int| 0 <= i < next.len() ==> next[i] == (kept + data)[i]);
    }
    assert(kept =~= next.subrange(0, kept.len() as int));
}

} // verus!
