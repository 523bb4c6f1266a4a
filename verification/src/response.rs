//! The response state machine: frames a received byte stream into one
//! status/meta header line and a body, serving the body through a pull-based
//! reader.
//!
//! The machine itself performs no transport I/O. The caller that owns the
//! transport reads from it whenever the machine asks for more bytes
//! ([`ReadOutcome::NeedRead`]) and hands the outcome of that read back in as a
//! [`StreamEvent`]. Everything the machine decides — header framing, the
//! 1024-byte header cap, lookahead handling, terminal behaviour — is stated in
//! [`read_step_post`] and proved of [`Response::read_step`].

use vstd::prelude::*;

verus! {

use vstd::slice::{slice_subrange, slice_to_vec};
use vstd::utf8::{valid_utf8, decode_utf8};
use crate::status::{Status, status_of};
use crate::text::utf8_to_string;

/// A violation of the response framing rules. Fatal to the exchange.
#[derive(Clone, Copy, Debug, PartialEq, Eq, Structural)]
pub enum ProtocolError {
    UnexpectedEndOfStream,
    HeaderTooShort,
    HeaderTooLong,
    HeaderMalformed,
    UnknownStatus,
}

/// What a read of the response can fail with. `Terminated` doubles as the
/// normal end-of-body signal: it is an error value by design, so that callers
/// can read in a loop until they observe it.
#[derive(Clone, Copy, Debug, PartialEq, Eq, Structural)]
pub enum Error {
    Protocol(ProtocolError),
    IO,
    TLS,
    Interrupted,
    Terminated,
}

/// The outcome of one read of the transport stream, handed to the machine by
/// the caller that owns the transport.
#[derive(Debug)]
pub enum StreamEvent {
    /// The read yielded these decrypted bytes (possibly none).
    Data(Vec<u8>),
    /// The read was interrupted and should be retried.
    Interrupted,
    /// The peer closed the connection.
    Terminated,
    /// The read failed fatally below the record layer.
    IO,
    /// The read failed fatally in the record layer.
    TLS,
}

/// What one step of the machine yields to the caller.
#[derive(Debug, PartialEq)]
pub enum ReadOutcome {
    /// Body bytes for the caller, at most the requested amount.
    Data(Vec<u8>),
    /// The machine needs the outcome of one more transport read.
    NeedRead,
    /// The header decoded to a status whose handling this core does not
    /// define; only the success path streams a body. The status and meta are
    /// recorded on the machine.
    Unsupported(Status),
    /// The read failed; `Error::Terminated` is the normal end of the body.
    Failed(Error),
}

/// The phase of the exchange. Transitions only ever move forward.
#[derive(Clone, Copy, Debug, PartialEq, Eq, Structural)]
pub enum State {
    ReadingHeader,
    ReadingData,
    Complete,
}

/// A response header line, including its CR LF terminator, never grows past
/// this many bytes.
pub const HEADER_CAP: usize = 1024;

/// A response being framed from a stream of received bytes.
pub struct Response {
    /// Current phase.
    pub state: State,
    /// While `ReadingHeader`: the header bytes accumulated so far. While
    /// `ReadingData`: lookahead body bytes already received but not yet
    /// consumed by the caller.
    pub buffer: Vec<u8>,
    /// The decoded status, once the header has been parsed.
    pub status: Status,
    /// The decoded meta text, once the header has been parsed.
    pub meta: String,
}

/// How many bytes are served out of `len` available when the caller takes at
/// most `max_len`.
pub open spec fn capped(len: int, max_len: int) -> int {
    if len <= max_len {
        len
    } else {
        max_len
    }
}

/// True when a CR LF pair sits at position `i` of `s`.
pub open spec fn is_crlf_at(s: Seq<u8>, i: int) -> bool {
    &&& 0 <= i
    &&& i + 2 <= s.len()
    &&& s[i] == 13
    &&& s[i + 1] == 10
}

/// The position of the first CR LF pair in `s`, or -1 when there is none.
pub open spec fn find_crlf(s: Seq<u8>) -> int
    decreases s.len(),
{
    if s.len() < 2 {
        -1
    } else if s[0] == 13 && s[1] == 10 {
        0
    } else {
        let rest = find_crlf(s.drop_first());
        if rest < 0 {
            -1
        } else {
            rest + 1
        }
    }
}

pub proof fn lemma_find_crlf(s: Seq<u8>)
    ensures
        find_crlf(s) == -1 ==> forall|j: int| !is_crlf_at(s, j),
        find_crlf(s) >= 0 ==> is_crlf_at(s, find_crlf(s)),
        find_crlf(s) >= 0 ==> forall|j: int| 0 <= j < find_crlf(s) ==> !is_crlf_at(s, j),
    decreases s.len(),
{
    if s.len() < 2 {
    } else if s[0] == 13 && s[1] == 10 {
    } else {
        lemma_find_crlf(s.drop_first());
        assert forall|j: int| 1 <= j && is_crlf_at(s, j) implies is_crlf_at(s.drop_first(), j - 1) by {
            assert(s.drop_first()[j - 1] == s[j]);
            assert(s.drop_first()[j] == s[j + 1]);
        }
        assert forall|j: int| 0 <= j && is_crlf_at(s.drop_first(), j) implies is_crlf_at(s, j + 1) by {
            assert(s.drop_first()[j] == s[j + 1]);
            assert(s.drop_first()[j + 1] == s[j + 2]);
        }
    }
}

pub proof fn lemma_find_crlf_at(s: Seq<u8>, i: int)
    requires
        is_crlf_at(s, i),
        forall|j: int| 0 <= j < i ==> !is_crlf_at(s, j),
    ensures
        find_crlf(s) == i,
{
    lemma_find_crlf(s);
    if find_crlf(s) == -1 {
        assert(!is_crlf_at(s, i));
    } else if find_crlf(s) < i {
        assert(!is_crlf_at(s, find_crlf(s)));
    } else if find_crlf(s) > i {
        assert(!is_crlf_at(s, i));
    }
}

/// Finds the first CR LF pair in the slice, as its starting index.
pub fn line_ending(slice: &[u8]) -> (r: Option<usize>)
    ensures
        match r {
            Some(i) => find_crlf(slice@) == i && i + 2 <= slice@.len(),
            None => find_crlf(slice@) == -1,
        },
{
    let len = slice.len();
    if len < 2 {
        proof {
            lemma_find_crlf(slice@);
            if find_crlf(slice@) >= 0 {
                assert(is_crlf_at(slice@, find_crlf(slice@)));
            }
        }
        return None;
    }
    let mut i: usize = 0;
    while i <= len - 2
        invariant
            len == slice@.len(),
            len >= 2,
            0 <= i,
            i + 2 <= len + 1,
            forall|j: int| 0 <= j < i ==> !is_crlf_at(slice@, j),
        decreases len - i,
    {
        let a = *vstd::slice::slice_index_get(slice, i);
        let b = *vstd::slice::slice_index_get(slice, i + 1);
        if a == 13 && b == 10 {
            proof {
                lemma_find_crlf_at(slice@, i as int);
            }
            return Some(i);
        }
        i = i + 1;
    }
    proof {
        lemma_find_crlf(slice@);
        if find_crlf(slice@) >= 0 {
            assert(is_crlf_at(slice@, find_crlf(slice@)));
        }
    }
    None
}

/// What parsing a header line (the text before the terminator) yields:
/// the status and the meta characters, or the protocol violation.
pub open spec fn parse_header_spec(h: Seq<u8>) -> Result<(Status, Seq<char>), ProtocolError> {
    if h.len() < 2 {
        Err(ProtocolError::HeaderTooShort)
    } else if h.len() > 2 && h[2] != 32 {
        Err(ProtocolError::HeaderMalformed)
    } else if !(48 <= h[0] <= 57 && 48 <= h[1] <= 57) {
        Err(ProtocolError::HeaderMalformed)
    } else {
        let value = (((h[0] - 48) * 10 + (h[1] - 48)) as u8);
        match status_of(value) {
            None => Err(ProtocolError::UnknownStatus),
            Some(status) => {
                let meta_bytes = if h.len() > 2 {
                    h.skip(3)
                } else {
                    Seq::<u8>::empty()
                };
                if valid_utf8(meta_bytes) {
                    Ok((status, decode_utf8(meta_bytes)))
                } else {
                    Err(ProtocolError::HeaderMalformed)
                }
            },
        }
    }
}

/// Relates an executable parse result to the specified one.
pub open spec fn parse_result_matches(
    r: Result<(Status, String), ProtocolError>,
    m: Result<(Status, Seq<char>), ProtocolError>,
) -> bool {
    match (r, m) {
        (Ok(a), Ok(b)) => a.0 == b.0 && a.1@ == b.1,
        (Err(a), Err(b)) => a == b,
        _ => false,
    }
}

/// Parses a header line (without its terminator) into the status and the meta
/// text.
///
/// The header must be at least two bytes; a third byte, if present, must be a
/// space; the first two bytes must be ASCII digits whose value is a
/// recognized status; the meta text (everything after the space) must be
/// valid UTF-8.
pub fn parse_header(header: &[u8]) -> (r: Result<(Status, String), ProtocolError>)
    ensures
        parse_result_matches(r, parse_header_spec(header@)),
{
    let len = header.len();
    if len < 2 {
        return Err(ProtocolError::HeaderTooShort);
    }
    if len > 2 && *vstd::slice::slice_index_get(header, 2) != 32 {
        return Err(ProtocolError::HeaderMalformed);
    }
    let d0 = *vstd::slice::slice_index_get(header, 0);
    let d1 = *vstd::slice::slice_index_get(header, 1);
    if !(48 <= d0 && d0 <= 57 && 48 <= d1 && d1 <= 57) {
        return Err(ProtocolError::HeaderMalformed);
    }
    let value = (d0 - 48) * 10 + (d1 - 48);
    let status = match Status::try_from(value) {
        Ok(status) => status,
        Err(_) => {
            return Err(ProtocolError::UnknownStatus);
        },
    };
    let meta_bytes: Vec<u8> = if len > 2 {
        slice_to_vec(slice_subrange(header, 3, len))
    } else {
        Vec::new()
    };
    proof {
        if header@.len() > 2 {
            assert(meta_bytes@ =~= header@.skip(3));
        } else {
            assert(meta_bytes@ =~= Seq::<u8>::empty());
        }
    }
    match utf8_to_string(meta_bytes) {
        Some(meta) => Ok((status, meta)),
        None => Err(ProtocolError::HeaderMalformed),
    }
}

impl Response {
    /// True when the machine can only make progress from the outcome of one
    /// more transport read.
    pub open spec fn needs_event(self) -> bool {
        ||| self.state is ReadingHeader
        ||| (self.state is ReadingData && self.buffer@.len() == 0)
    }

    /// Asks whether the caller should perform a transport read before the
    /// next step.
    pub fn wants_read(&self) -> (r: bool)
        ensures
            r == self.needs_event(),
    {
        match self.state {
            State::ReadingHeader => true,
            State::ReadingData => self.buffer.len() == 0,
            State::Complete => false,
        }
    }

    /// A fresh machine, before any byte has been received.
    pub fn new() -> (r: Self)
        ensures
            r.state is ReadingHeader,
            r.buffer@ == Seq::<u8>::empty(),
            r.status == Status::BadRequest,
            r.meta@ == Seq::<char>::empty(),
    {
        Response {
            state: State::ReadingHeader,
            buffer: Vec::new(),
            status: Status::BadRequest,
            meta: String::new(),
        }
    }
}

/// How the machine reacts, in `ReadingHeader`, to newly received bytes `d`:
/// the accumulated buffer is scanned for the first CR LF; absence within the
/// cap is `HeaderTooLong` once the cap is filled; presence parses the header
/// and, on the success status, switches to body reading, serving any bytes
/// beyond the terminator as lookahead before any further stream read.
pub open spec fn header_step_post(
    pre: Response,
    d: Seq<u8>,
    max_len: usize,
    post: Response,
    r: ReadOutcome,
) -> bool {
    let b = pre.buffer@ + d;
    let p = find_crlf(b);
    if p >= 0 && p + 2 <= HEADER_CAP {
        header_found_post(pre, b, p, max_len, post, r)
    } else if b.len() >= HEADER_CAP {
        &&& post.state == pre.state
        &&& post.buffer@ == b
        &&& post.status == pre.status
        &&& post.meta == pre.meta
        &&& r == ReadOutcome::Failed(Error::Protocol(ProtocolError::HeaderTooLong))
    } else {
        &&& post.state == pre.state
        &&& post.buffer@ == b
        &&& post.status == pre.status
        &&& post.meta == pre.meta
        &&& r == ReadOutcome::NeedRead
    }
}

/// The machine's reaction once the header terminator has been found at `p` in
/// the accumulated bytes `b`.
pub open spec fn header_found_post(
    pre: Response,
    b: Seq<u8>,
    p: int,
    max_len: usize,
    post: Response,
    r: ReadOutcome,
) -> bool {
    match parse_header_spec(b.take(p)) {
        Err(e) => {
            &&& post.state == pre.state
            &&& post.buffer@ == b
            &&& post.status == pre.status
            &&& post.meta == pre.meta
            &&& r == ReadOutcome::Failed(Error::Protocol(e))
        },
        Ok((status, meta)) => {
            &&& post.status == status
            &&& post.meta@ == meta
            &&& if status == Status::Success {
                let rest = b.skip(p + 2);
                let n = capped(rest.len() as int, max_len as int);
                &&& post.state is ReadingData
                &&& if rest.len() == 0 {
                    &&& post.buffer@ == Seq::<u8>::empty()
                    &&& r == ReadOutcome::NeedRead
                } else {
                    &&& post.buffer@ == rest.skip(n)
                    &&& (r matches ReadOutcome::Data(v) && v@ == rest.take(n))
                }
            } else {
                &&& post.state is Complete
                &&& post.buffer@ == Seq::<u8>::empty()
                &&& r == ReadOutcome::Unsupported(status)
            }
        },
    }
}

/// How the machine reacts to one step: the whole transition relation of
/// [`Response::read_step`], by phase and event.
pub open spec fn read_step_post(
    pre: Response,
    event: Option<StreamEvent>,
    max_len: usize,
    post: Response,
    r: ReadOutcome,
) -> bool {
    match pre.state {
        State::Complete => {
            &&& post == pre
            &&& r == ReadOutcome::Failed(Error::Terminated)
        },
        State::ReadingHeader => match event {
            None => post == pre && r == ReadOutcome::NeedRead,
            Some(StreamEvent::Interrupted) => post == pre && r == ReadOutcome::NeedRead,
            Some(StreamEvent::Terminated) => post == pre && r == ReadOutcome::Failed(
                Error::Protocol(ProtocolError::UnexpectedEndOfStream),
            ),
            Some(StreamEvent::IO) => post == pre && r == ReadOutcome::Failed(Error::IO),
            Some(StreamEvent::TLS) => post == pre && r == ReadOutcome::Failed(Error::TLS),
            Some(StreamEvent::Data(d)) => header_step_post(pre, d@, max_len, post, r),
        },
        State::ReadingData => {
            if pre.buffer@.len() > 0 {
                let n = capped(pre.buffer@.len() as int, max_len as int);
                &&& post.state == pre.state
                &&& post.buffer@ == pre.buffer@.skip(n)
                &&& post.status == pre.status
                &&& post.meta == pre.meta
                &&& (r matches ReadOutcome::Data(v) && v@ == pre.buffer@.take(n))
            } else {
                match event {
                    None => post == pre && r == ReadOutcome::NeedRead,
                    Some(StreamEvent::Interrupted) => post == pre && r == ReadOutcome::Failed(
                        Error::Interrupted,
                    ),
                    Some(StreamEvent::Terminated) => {
                        &&& post.state is Complete
                        &&& post.buffer == pre.buffer
                        &&& post.status == pre.status
                        &&& post.meta == pre.meta
                        &&& r == ReadOutcome::Failed(Error::Terminated)
                    },
                    Some(StreamEvent::IO) => post == pre && r == ReadOutcome::Failed(Error::IO),
                    Some(StreamEvent::TLS) => post == pre && r == ReadOutcome::Failed(Error::TLS),
                    Some(StreamEvent::Data(d)) => {
                        let n = capped(d@.len() as int, max_len as int);
                        &&& post.state == pre.state
                        &&& post.buffer@ == d@.skip(n)
                        &&& post.status == pre.status
                        &&& post.meta == pre.meta
                        &&& (r matches ReadOutcome::Data(v) && v@ == d@.take(n))
                    },
                }
            }
        },
    }
}

impl Response {
    /// Performs one step of reading the response.
    ///
    /// `max_len` is the most bytes the caller is prepared to take. `event`
    /// must carry the outcome of one transport read exactly when the machine
    /// asked for one; the caller passes `None` otherwise. The machine never
    /// asks for a read while it still holds lookahead bytes, and never again
    /// once complete.
    pub fn read_step(&mut self, event: Option<StreamEvent>, max_len: usize) -> (r: ReadOutcome)
        requires
            event is Some ==> old(self).needs_event(),
        ensures
            read_step_post(*old(self), event, max_len, *final(self), r),
    {
        match self.state {
            State::Complete => ReadOutcome::Failed(Error::Terminated),
            State::ReadingHeader => match event {
                None => ReadOutcome::NeedRead,
                Some(StreamEvent::Interrupted) => ReadOutcome::NeedRead,
                Some(StreamEvent::Terminated) => ReadOutcome::Failed(
                    Error::Protocol(ProtocolError::UnexpectedEndOfStream),
                ),
                Some(StreamEvent::IO) => ReadOutcome::Failed(Error::IO),
                Some(StreamEvent::TLS) => ReadOutcome::Failed(Error::TLS),
                Some(StreamEvent::Data(d)) => self.header_step(d, max_len),
            },
            State::ReadingData => {
                if self.buffer.len() > 0 {
                    let n = if self.buffer.len() <= max_len {
                        self.buffer.len()
                    } else {
                        max_len
                    };
                    let served = slice_to_vec(slice_subrange(self.buffer.as_slice(), 0, n));
                    let rest = slice_to_vec(
                        slice_subrange(self.buffer.as_slice(), n, self.buffer.len()),
                    );
                    self.buffer = rest;
                    proof {
                        let m = capped(old(self).buffer@.len() as int, max_len as int);
                        assert(served@ =~= old(self).buffer@.take(m));
                        assert(self.buffer@ =~= old(self).buffer@.skip(m));
                    }
                    ReadOutcome::Data(served)
                } else {
                    match event {
                        None => ReadOutcome::NeedRead,
                        Some(StreamEvent::Interrupted) => ReadOutcome::Failed(Error::Interrupted),
                        Some(StreamEvent::Terminated) => {
                            self.state = State::Complete;
                            ReadOutcome::Failed(Error::Terminated)
                        },
                        Some(StreamEvent::IO) => ReadOutcome::Failed(Error::IO),
                        Some(StreamEvent::TLS) => ReadOutcome::Failed(Error::TLS),
                        Some(StreamEvent::Data(d)) => {
                            let n = if d.len() <= max_len {
                                d.len()
                            } else {
                                max_len
                            };
                            let served = slice_to_vec(slice_subrange(d.as_slice(), 0, n));
                            let rest = slice_to_vec(slice_subrange(d.as_slice(), n, d.len()));
                            self.buffer = rest;
                            proof {
                                let m = capped(d@.len() as int, max_len as int);
                                assert(served@ =~= d@.take(m));
                                assert(self.buffer@ =~= d@.skip(m));
                            }
                            ReadOutcome::Data(served)
                        },
                    }
                }
            },
        }
    }

    /// One step while reading the header: take in newly received bytes, look
    /// for the terminator, and on finding it parse the header line.
    fn header_step(&mut self, d: Vec<u8>, max_len: usize) -> (r: ReadOutcome)
        requires
            old(self).state is ReadingHeader,
        ensures
            header_step_post(*old(self), d@, max_len, *final(self), r),
    {
        let mut incoming = d;
        self.buffer.append(&mut incoming);
        match line_ending(self.buffer.as_slice()) {
            Some(p) => {
                if p <= HEADER_CAP - 2 {
                    self.header_found(p, max_len)
                } else {
                    ReadOutcome::Failed(Error::Protocol(ProtocolError::HeaderTooLong))
                }
            },
            None => {
                if self.buffer.len() >= HEADER_CAP {
                    ReadOutcome::Failed(Error::Protocol(ProtocolError::HeaderTooLong))
                } else {
                    ReadOutcome::NeedRead
                }
            },
        }
    }

    /// The header terminator has been found at `p`: parse the line before it,
    /// record status and meta, and hand any bytes beyond the terminator on as
    /// lookahead body content.
    fn header_found(&mut self, p: usize, max_len: usize) -> (r: ReadOutcome)
        requires
            old(self).state is ReadingHeader,
            find_crlf(old(self).buffer@) == p,
            p + 2 <= old(self).buffer@.len(),
        ensures
            header_found_post(*old(self), old(self).buffer@, p as int, max_len, *final(self), r),
    {
        let ghost b = self.buffer@;
        let header = slice_subrange(self.buffer.as_slice(), 0, p);
        proof {
            assert(header@ =~= b.take(p as int));
        }
        match parse_header(header) {
            Err(e) => ReadOutcome::Failed(Error::Protocol(e)),
            Ok((status, meta)) => {
                self.status = status;
                self.meta = meta;
                if status == Status::Success {
                    let total = self.buffer.len();
                    let rest = slice_to_vec(slice_subrange(self.buffer.as_slice(), p + 2, total));
                    proof {
                        assert(rest@ =~= b.skip(p + 2));
                    }
                    if rest.len() == 0 {
                        self.buffer = Vec::new();
                        self.state = State::ReadingData;
                        proof {
                            assert(b.skip(p + 2) =~= Seq::<u8>::empty());
                        }
                        ReadOutcome::NeedRead
                    } else {
                        let n = if rest.len() <= max_len {
                            rest.len()
                        } else {
                            max_len
                        };
                        let served = slice_to_vec(slice_subrange(rest.as_slice(), 0, n));
                        let kept = slice_to_vec(slice_subrange(rest.as_slice(), n, rest.len()));
                        self.buffer = kept;
                        self.state = State::ReadingData;
                        proof {
                            let m = capped(b.skip(p + 2).len() as int, max_len as int);
                            assert(served@ =~= b.skip(p + 2).take(m));
                            assert(self.buffer@ =~= b.skip(p + 2).skip(m));
                        }
                        ReadOutcome::Data(served)
                    }
                } else {
                    self.buffer = Vec::new();
                    self.state = State::Complete;
                    ReadOutcome::Unsupported(status)
                }
            },
        }
    }
}

/// The order of the phases: reading the header, then reading data, then
/// complete.
pub open spec fn state_rank(s: State) -> int {
    match s {
        State::ReadingHeader => 0,
        State::ReadingData => 1,
        State::Complete => 2,
    }
}

/// Once a terminated result has made the machine complete, every further
/// step reports `Terminated` again and changes nothing: reading in a loop
/// until `Terminated` is observed is safe.
pub proof fn lemma_complete_is_absorbing(
    pre: Response,
    event: Option<StreamEvent>,
    max_len: usize,
    post: Response,
    r: ReadOutcome,
)
    requires
        pre.state is Complete,
        read_step_post(pre, event, max_len, post, r),
    ensures
        post == pre,
        post.state is Complete,
        r == ReadOutcome::Failed(Error::Terminated),
{
}

/// Lookahead body bytes — bytes already received past the header terminator —
/// are served to the caller before any further stream read occurs: while the
/// machine holds such bytes it does not ask for an event, and a step serves
/// them directly.
pub proof fn lemma_lookahead_served_first(
    pre: Response,
    max_len: usize,
    post: Response,
    r: ReadOutcome,
)
    requires
        pre.state is ReadingData,
        pre.buffer@.len() > 0,
        read_step_post(pre, None, max_len, post, r),
    ensures
        !pre.needs_event(),
        r matches ReadOutcome::Data(v) && v@ == pre.buffer@.take(
            capped(pre.buffer@.len() as int, max_len as int),
        ),
        post.buffer@ == pre.buffer@.skip(capped(pre.buffer@.len() as int, max_len as int)),
        post.state is ReadingData,
{
}

/// Bytes delivered by the same stream read as the header terminator, beyond
/// the terminator, become lookahead body content: on a success header the
/// step serves them (up to the caller's limit) and keeps the remainder
/// buffered, without any further stream read.
pub proof fn lemma_header_extra_bytes_become_body(
    pre: Response,
    d: Vec<u8>,
    max_len: usize,
    post: Response,
    r: ReadOutcome,
)
    requires
        pre.state is ReadingHeader,
        read_step_post(pre, Some(StreamEvent::Data(d)), max_len, post, r),
        0 <= find_crlf(pre.buffer@ + d@),
        find_crlf(pre.buffer@ + d@) + 2 <= HEADER_CAP,
        parse_header_spec((pre.buffer@ + d@).take(find_crlf(pre.buffer@ + d@))) matches Ok(pair)
            && pair.0 == Status::Success,
        (pre.buffer@ + d@).skip(find_crlf(pre.buffer@ + d@) + 2).len() > 0,
    ensures
        post.state is ReadingData,
        r matches ReadOutcome::Data(v) && v@ == (pre.buffer@ + d@).skip(
            find_crlf(pre.buffer@ + d@) + 2,
        ).take(
            capped((pre.buffer@ + d@).skip(find_crlf(pre.buffer@ + d@) + 2).len() as int,
                max_len as int),
        ),
        post.buffer@ == (pre.buffer@ + d@).skip(find_crlf(pre.buffer@ + d@) + 2).skip(
            capped((pre.buffer@ + d@).skip(find_crlf(pre.buffer@ + d@) + 2).len() as int,
                max_len as int),
        ),
{
}

/// While the header is still being read, the machine asks for more bytes
/// only while the accumulated buffer is under the header cap: the cap is
/// enforced before any further read.
pub proof fn lemma_header_buffer_capped(
    pre: Response,
    d: Vec<u8>,
    max_len: usize,
    post: Response,
    r: ReadOutcome,
)
    requires
        pre.state is ReadingHeader,
        read_step_post(pre, Some(StreamEvent::Data(d)), max_len, post, r),
        r == ReadOutcome::NeedRead,
    ensures
        post.buffer@.len() < HEADER_CAP,
{
}

/// State transitions are monotonic and one-directional: no step ever moves
/// the machine backward.
pub proof fn lemma_state_monotonic(
    pre: Response,
    event: Option<StreamEvent>,
    max_len: usize,
    post: Response,
    r: ReadOutcome,
)
    requires
        read_step_post(pre, event, max_len, post, r),
    ensures
        state_rank(post.state) >= state_rank(pre.state),
{
}

} // verus!
