use vstd::prelude::*;
use crate::codec::{
    DecodeError, decode_request_parts, decode_response_parts, spec_decode_request,
    spec_decode_response, strip_cr,
};
use crate::request::HttpRequest;
use crate::response::HttpResponse;
use crate::wire::push_bytes;

verus! {

/// Bytes asked for by each read of the body.
pub const BODY_CHUNK_SIZE: usize = 512;

/// Where the reading of one message stands.
#[derive(Debug, Clone, Copy, PartialEq, Eq, Structural)]
pub enum ReadPhase {
    StartLine,
    Headers,
    Body,
    Done,
}

/// What the transport should do next for the message being read.
#[derive(Debug, Clone, Copy, PartialEq, Eq, Structural)]
pub enum ReadAction {
    /// Read one line, up to and including its line feed.
    ReadLine,
    /// Read at most this many bytes of the body.
    ReadChunk(usize),
    /// The message is read: decode it.
    Complete,
}

/// What the transport gave back.
pub enum ReadEvent {
    /// A line, with its terminator if it had one (empty at the end of the stream).
    Line(Vec<u8>),
    /// Bytes of the body.
    Chunk(Vec<u8>),
    /// Nothing is available now.
    WouldBlock,
}

pub ghost enum ReadEventView {
    Line(Seq<u8>),
    Chunk(Seq<u8>),
    WouldBlock,
}

impl View for ReadEvent {
    type V = ReadEventView;

    open spec fn view(&self) -> ReadEventView {
        match self {
            ReadEvent::Line(l) => ReadEventView::Line(l@),
            ReadEvent::Chunk(c) => ReadEventView::Chunk(c@),
            ReadEvent::WouldBlock => ReadEventView::WouldBlock,
        }
    }
}

/// Plain value of a message reader.
pub ghost struct ReaderView {
    pub phase: ReadPhase,
    pub head: Seq<u8>,
    pub body: Seq<u8>,
}

/// A line without its line feed and the carriage return before it.
pub open spec fn line_text(l: Seq<u8>) -> Seq<u8> {
    strip_cr(
        if l.len() > 0 && l.last() == 10 {
            l.drop_last()
        } else {
            l
        },
    )
}

/// The state after an event. A line read while waiting for the start line or for headers is
/// kept verbatim in the header block, and a blank line ends the headers. A body read that brings
/// fewer bytes than were asked for ends the body; a body read that would block brings none.
/// Any other event leaves the state as it was; so does every line read that would block.
pub open spec fn next_reader(v: ReaderView, ev: ReadEventView) -> ReaderView {
    match (v.phase, ev) {
        (ReadPhase::StartLine, ReadEventView::Line(l)) => ReaderView {
            phase: ReadPhase::Headers,
            head: v.head + l,
            body: v.body,
        },
        (ReadPhase::Headers, ReadEventView::Line(l)) => ReaderView {
            phase: if line_text(l).len() == 0 {
                ReadPhase::Body
            } else {
                ReadPhase::Headers
            },
            head: v.head + l,
            body: v.body,
        },
        (ReadPhase::Body, ReadEventView::Chunk(c)) => ReaderView {
            phase: if c.len() < BODY_CHUNK_SIZE {
                ReadPhase::Done
            } else {
                ReadPhase::Body
            },
            head: v.head,
            body: v.body + c,
        },
        (ReadPhase::Body, ReadEventView::WouldBlock) => ReaderView {
            phase: ReadPhase::Done,
            head: v.head,
            body: v.body,
        },
        _ => v,
    }
}

/// The action that a state asks for.
pub open spec fn reader_action(phase: ReadPhase) -> ReadAction {
    match phase {
        ReadPhase::StartLine => ReadAction::ReadLine,
        ReadPhase::Headers => ReadAction::ReadLine,
        ReadPhase::Body => ReadAction::ReadChunk(BODY_CHUNK_SIZE),
        ReadPhase::Done => ReadAction::Complete,
    }
}

/// Frames one message off a non-blocking transport: start line, header lines up to a blank
/// line, then the body in chunks until a read brings fewer bytes than were asked for. The body
/// rule assumes that a peer with nothing more ready has sent the whole body, which a slow peer
/// can break.
pub struct MessageReader {
    phase: ReadPhase,
    head: Vec<u8>,
    body: Vec<u8>,
}

impl View for MessageReader {
    type V = ReaderView;

    closed spec fn view(&self) -> ReaderView {
        ReaderView { phase: self.phase, head: self.head@, body: self.body@ }
    }
}

impl MessageReader {
    pub fn new() -> (r: Self)
        ensures
            r@ == (ReaderView {
                phase: ReadPhase::StartLine,
                head: Seq::empty(),
                body: Seq::empty(),
            }),
    {
        MessageReader { phase: ReadPhase::StartLine, head: Vec::new(), body: Vec::new() }
    }

    pub fn phase(&self) -> (r: ReadPhase)
        ensures
            r == self@.phase,
    {
        self.phase
    }

    pub fn next_action(&self) -> (r: ReadAction)
        ensures
            r == reader_action(self@.phase),
    {
        match self.phase {
            ReadPhase::StartLine => ReadAction::ReadLine,
            ReadPhase::Headers => ReadAction::ReadLine,
            ReadPhase::Body => ReadAction::ReadChunk(BODY_CHUNK_SIZE),
            ReadPhase::Done => ReadAction::Complete,
        }
    }

    /// Takes in what the transport gave back and returns the next action.
    pub fn handle(&mut self, ev: ReadEvent) -> (r: ReadAction)
        ensures
            final(self)@ == next_reader(old(self)@, ev@),
            r == reader_action(final(self)@.phase),
    {
        match (self.phase, ev) {
            (ReadPhase::StartLine, ReadEvent::Line(l)) => {
                push_bytes(&mut self.head, l.as_slice());
                self.phase = ReadPhase::Headers;
            },
            (ReadPhase::Headers, ReadEvent::Line(l)) => {
                push_bytes(&mut self.head, l.as_slice());
                let n = l.len();
                let mut end = n;
                if end > 0 && l[end - 1] == 10 {
                    end = end - 1;
                }
                if end > 0 && l[end - 1] == 13 {
                    end = end - 1;
                }
                assert(line_text(l@).len() == 0 <==> end == 0);
                if end == 0 {
                    self.phase = ReadPhase::Body;
                }
            },
            (ReadPhase::Body, ReadEvent::Chunk(c)) => {
                push_bytes(&mut self.body, c.as_slice());
                if c.len() < BODY_CHUNK_SIZE {
                    self.phase = ReadPhase::Done;
                }
            },
            (ReadPhase::Body, ReadEvent::WouldBlock) => {
                self.phase = ReadPhase::Done;
            },
            _ => {},
        }
        self.next_action()
    }

    /// Decodes what was read as a request.
    pub fn finish_request(self) -> (r: Result<HttpRequest, DecodeError>)
        ensures
            match spec_decode_request(self@.head, self@.body) {
                Ok(v) => r is Ok && r->Ok_0@ == v,
                Err(e) => r == Err::<HttpRequest, DecodeError>(e),
            },
    {
        let MessageReader { phase, head, body } = self;
        decode_request_parts(head.as_slice(), body)
    }

    /// Decodes what was read as a response.
    pub fn finish_response(self) -> (r: Result<HttpResponse, DecodeError>)
        ensures
            match spec_decode_response(self@.head, self@.body) {
                Ok(v) => r is Ok && r->Ok_0@ == v,
                Err(e) => r == Err::<HttpResponse, DecodeError>(e),
            },
    {
        let MessageReader { phase, head, body } = self;
        decode_response_parts(head.as_slice(), body)
    }
}

} // verus!
