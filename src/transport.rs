//! Decisions of the transport layer: which path a request takes after the
//! TLS handshake and the kernel offload attempt, when a response read loop
//! ends, and where a response's header block ends. The sockets themselves
//! are driven by the caller, which performs each action and reports each
//! event.
use vstd::prelude::*;
use vstd::string::StringSliceAdditionalSpecFns;
use vstd::utf8::{encode_utf8, is_char_boundary, valid_utf8};

verus! {

/// The transport that carries a connection's bytes.
#[derive(Debug, Clone, Copy, PartialEq, Eq, Structural)]
pub enum TransportKind {
    /// TLS records are encrypted by the kernel; the socket is read directly.
    KernelOffload,
    /// TLS runs in user space over a fresh connection.
    Software,
}

/// Where a connection stands between connecting and exchanging data.
#[derive(Debug, Clone, Copy, PartialEq, Eq, Structural)]
pub enum ConnectState {
    /// The TLS handshake runs over the raw socket.
    Handshaking,
    /// The handshake's secrets are being installed in the kernel.
    Installing,
    /// The request goes over the kernel-offloaded socket.
    Offloaded,
    /// The socket is abandoned; the request is redone over a new connection
    /// with user-space TLS.
    Fallback,
}

/// What the caller reports after a connection step.
#[derive(Debug, Clone, Copy, PartialEq, Eq, Structural)]
pub enum ConnectEvent {
    HandshakeSucceeded,
    HandshakeFailed,
    OffloadInstalled,
    OffloadFailed,
}

/// The next state of a connection. A failed handshake or a failed offload
/// degrades to the fallback path; the offloaded and fallback states are
/// final, so offload is never retried on a handle once it failed.
pub open spec fn connect_step(s: ConnectState, e: ConnectEvent) -> ConnectState {
    match (s, e) {
        (ConnectState::Handshaking, ConnectEvent::HandshakeSucceeded) => ConnectState::Installing,
        (ConnectState::Handshaking, _) => ConnectState::Fallback,
        (ConnectState::Installing, ConnectEvent::OffloadInstalled) => ConnectState::Offloaded,
        (ConnectState::Installing, _) => ConnectState::Fallback,
        (s, _) => s,
    }
}

/// Moves a connection on after a step.
pub fn next_connect_state(s: ConnectState, e: ConnectEvent) -> (r: ConnectState)
    ensures
        r == connect_step(s, e),
{
    match s {
        ConnectState::Handshaking => match e {
            ConnectEvent::HandshakeSucceeded => ConnectState::Installing,
            _ => ConnectState::Fallback,
        },
        ConnectState::Installing => match e {
            ConnectEvent::OffloadInstalled => ConnectState::Offloaded,
            _ => ConnectState::Fallback,
        },
        other => other,
    }
}

/// The transport that a connection in a final state uses.
pub open spec fn transport_of(s: ConnectState) -> Option<TransportKind> {
    match s {
        ConnectState::Offloaded => Some(TransportKind::KernelOffload),
        ConnectState::Fallback => Some(TransportKind::Software),
        _ => None,
    }
}

/// The transport that carries the request, once the connection steps are over.
pub fn transport_for(s: ConnectState) -> (r: Option<TransportKind>)
    ensures
        r == transport_of(s),
{
    match s {
        ConnectState::Offloaded => Some(TransportKind::KernelOffload),
        ConnectState::Fallback => Some(TransportKind::Software),
        _ => None,
    }
}

/// A socket whose handshake succeeded but whose offload install failed is
/// routed to the fallback path, and stays there whatever is reported next.
pub proof fn lemma_offload_failure_falls_back(later: Seq<ConnectEvent>)
    ensures
        later.fold_left(
            connect_step(
                connect_step(ConnectState::Handshaking, ConnectEvent::HandshakeSucceeded),
                ConnectEvent::OffloadFailed,
            ),
            |s: ConnectState, e: ConnectEvent| connect_step(s, e),
        ) == ConnectState::Fallback,
        transport_of(ConnectState::Fallback) == Some(TransportKind::Software),
    decreases later.len(),
{
    if later.len() > 0 {
        lemma_offload_failure_falls_back(later.drop_last());
        assert(later.drop_last().push(later.last()) =~= later);
    }
}

/// The raw OS error code for an I/O error (`EIO`), which the kernel TLS layer
/// reports when the peer closes without a `close_notify` alert.
pub const EIO: i32 = 5;

/// How a failed read is taken.
#[derive(Debug, Clone, Copy, PartialEq, Eq, Structural)]
pub enum ReadFailure {
    /// The peer closed the connection without a clean TLS shutdown.
    AbruptClose,
    /// Any other I/O error.
    Other,
}

/// The class of a read error on `transport`: an unexpected end of file is an
/// abrupt close on either transport, and so is `EIO` on a kernel-offloaded
/// socket.
pub open spec fn read_failure_class(transport: TransportKind, unexpected_eof: bool, os_error: Option<i32>) -> ReadFailure {
    if unexpected_eof || (transport == TransportKind::KernelOffload && os_error == Some(EIO)) {
        ReadFailure::AbruptClose
    } else {
        ReadFailure::Other
    }
}

/// Classifies a read error from the error's kind and raw OS code.
pub fn classify_read_error(transport: TransportKind, unexpected_eof: bool, os_error: Option<i32>) -> (r: ReadFailure)
    ensures
        r == read_failure_class(transport, unexpected_eof, os_error),
{
    let eio = match os_error {
        Some(code) => code == EIO,
        None => false,
    };
    if unexpected_eof || (transport == TransportKind::KernelOffload && eio) {
        ReadFailure::AbruptClose
    } else {
        ReadFailure::Other
    }
}

/// What the read loop does next.
#[derive(Debug, Clone, Copy, PartialEq, Eq, Structural)]
pub enum ReadAction {
    /// Read another chunk.
    ReadMore,
    /// The response is complete: hand back what was received.
    Finished,
    /// The read failed: report the error.
    Abort,
}

/// The loop's next action and its bytes after a read that returned `chunk`.
/// An empty chunk is the end of the stream.
pub open spec fn after_chunk(received: Seq<u8>, chunk: Seq<u8>) -> (Seq<u8>, ReadAction) {
    if chunk.len() == 0 {
        (received, ReadAction::Finished)
    } else {
        (received + chunk, ReadAction::ReadMore)
    }
}

/// The loop's next action after a failed read: an abrupt close ends a
/// response that has begun, and is an error before any byte came.
pub open spec fn after_failure(received: Seq<u8>, failure: ReadFailure) -> ReadAction {
    if failure == ReadFailure::AbruptClose && received.len() > 0 {
        ReadAction::Finished
    } else {
        ReadAction::Abort
    }
}

/// The bytes of a response, accumulated read by read.
pub struct ResponseReader {
    received: Vec<u8>,
}

impl View for ResponseReader {
    type V = Seq<u8>;

    closed spec fn view(&self) -> Seq<u8> {
        self.received@
    }
}

impl ResponseReader {
    pub fn new() -> (r: ResponseReader)
        ensures
            r@ == Seq::<u8>::empty(),
    {
        ResponseReader { received: Vec::new() }
    }

    /// Takes the bytes of a successful read.
    pub fn on_chunk(&mut self, chunk: &[u8]) -> (a: ReadAction)
        ensures
            (final(self)@, a) == after_chunk(old(self)@, chunk@),
    {
        if chunk.len() == 0 {
            return ReadAction::Finished;
        }
        let mut i: usize = 0;
        while i < chunk.len()
            invariant
                i <= chunk@.len(),
                self@ =~= old(self)@ + chunk@.take(i as int),
            decreases chunk@.len() - i,
        {
            self.received.push(chunk[i]);
            i = i + 1;
        }
        assert(chunk@.take(i as int) =~= chunk@);
        ReadAction::ReadMore
    }

    /// Takes a failed read.
    pub fn on_failure(&self, failure: ReadFailure) -> (a: ReadAction)
        ensures
            a == after_failure(self@, failure),
    {
        if failure == ReadFailure::AbruptClose && self.received.len() > 0 {
            ReadAction::Finished
        } else {
            ReadAction::Abort
        }
    }

    /// The bytes received so far.
    pub fn received(&self) -> (r: &Vec<u8>)
        ensures
            r@ == self@,
    {
        &self.received
    }

    /// Gives up the bytes received.
    pub fn into_bytes(self) -> (r: Vec<u8>)
        ensures
            r@ == self@,
    {
        self.received
    }
}

/// A read of zero bytes ends the loop with the bytes accumulated so far; so
/// does an abrupt close once some bytes came, while before any byte it is an
/// error.
pub proof fn lemma_end_of_stream_keeps_response(received: Seq<u8>)
    ensures
        after_chunk(received, Seq::empty()) == (received, ReadAction::Finished),
        received.len() > 0 ==> after_failure(received, ReadFailure::AbruptClose) == ReadAction::Finished,
        received.len() == 0 ==> after_failure(received, ReadFailure::AbruptClose) == ReadAction::Abort,
{
}

/// The bytes and the action after a series of successful reads from
/// `received` on, up to the first read that ends the loop.
pub open spec fn after_reads(received: Seq<u8>, chunks: Seq<Seq<u8>>) -> (Seq<u8>, ReadAction)
    decreases chunks.len(),
{
    if chunks.len() == 0 {
        (received, ReadAction::ReadMore)
    } else {
        let (next, action) = after_chunk(received, chunks[0]);
        if action == ReadAction::Finished {
            (next, action)
        } else {
            after_reads(next, chunks.drop_first())
        }
    }
}

/// The chunks one after another.
pub open spec fn concat_chunks(chunks: Seq<Seq<u8>>) -> Seq<u8>
    decreases chunks.len(),
{
    if chunks.len() == 0 {
        Seq::empty()
    } else {
        chunks[0] + concat_chunks(chunks.drop_first())
    }
}

/// Non-empty reads followed by a read of zero bytes end the loop with every
/// byte received, in order.
pub proof fn lemma_reads_then_end_of_stream(received: Seq<u8>, chunks: Seq<Seq<u8>>)
    requires
        forall|i: int| 0 <= i < chunks.len() ==> (#[trigger] chunks[i]).len() > 0,
    ensures
        after_reads(received, chunks.push(Seq::empty())) == (received + concat_chunks(chunks), ReadAction::Finished),
    decreases chunks.len(),
{
    let all = chunks.push(Seq::<u8>::empty());
    if chunks.len() == 0 {
        assert(all[0] == Seq::<u8>::empty());
        assert(received + concat_chunks(chunks) =~= received);
    } else {
        assert(all[0] == chunks[0]);
        assert(all.drop_first() =~= chunks.drop_first().push(Seq::empty()));
        let rest = chunks.drop_first();
        assert forall|i: int| 0 <= i < rest.len() implies (#[trigger] rest[i]).len() > 0 by {
            assert(rest[i] == chunks[i + 1]);
        }
        lemma_reads_then_end_of_stream(received + chunks[0], rest);
        assert(received + chunks[0] + concat_chunks(rest) =~= received + concat_chunks(chunks));
    }
}

/// Whether the blank line `\r\n\r\n` stands at `i` in `b`.
pub open spec fn blank_line_at(b: Seq<u8>, i: int) -> bool {
    0 <= i && i + 4 <= b.len() && b[i] == 0x0D && b[i + 1] == 0x0A && b[i + 2] == 0x0D && b[i + 3] == 0x0A
}

/// The first position of a blank line in `b`.
pub open spec fn first_blank_line(b: Seq<u8>) -> Option<int> {
    if exists|i: int| #[trigger] blank_line_at(b, i) {
        Some(choose|i: int| blank_line_at(b, i) && forall|j: int| 0 <= j < i ==> !#[trigger] blank_line_at(b, j))
    } else {
        None
    }
}

/// Finds the first blank line, which ends an HTTP header block.
pub fn find_blank_line(b: &[u8]) -> (r: Option<usize>)
    ensures
        match r {
            Some(i) => blank_line_at(b@, i as int) && forall|j: int| 0 <= j < i ==> !#[trigger] blank_line_at(b@, j),
            None => forall|j: int| !#[trigger] blank_line_at(b@, j),
        },
{
    let n = b.len();
    if n < 4 {
        return None;
    }
    let mut i: usize = 0;
    while i <= n - 4
        invariant
            n == b@.len() >= 4,
            i <= n - 3,
            forall|j: int| 0 <= j < i ==> !#[trigger] blank_line_at(b@, j),
        decreases n - 3 - i,
    {
        if b[i] == 0x0D && b[i + 1] == 0x0A && b[i + 2] == 0x0D && b[i + 3] == 0x0A {
            return Some(i);
        }
        i = i + 1;
    }
    None
}

/// Whether `b` holds a complete header block.
pub fn headers_complete(b: &[u8]) -> (r: bool)
    ensures
        r == exists|i: int| #[trigger] blank_line_at(b@, i),
{
    find_blank_line(b).is_some()
}

proof fn lemma_ascii_keeps_boundary(b: Seq<u8>, i: int)
    requires
        valid_utf8(b),
        0 <= i < b.len(),
        b[i] < 0x80,
        is_char_boundary(b, i),
    ensures
        is_char_boundary(b, i + 1),
    decreases b.len(),
{
    reveal_with_fuel(is_char_boundary, 2);
    let l = vstd::utf8::length_of_first_scalar(b);
    let rest = vstd::utf8::pop_first_scalar(b);
    assert(vstd::utf8::valid_first_scalar(b) && valid_utf8(rest));
    assert(1 <= l <= b.len());
    assert(rest.len() == b.len() - l);
    if i > 0 {
        assert(is_char_boundary(rest, i - l));
        assert(i - l >= 0);
        assert(rest[i - l] == b[i]);
        lemma_ascii_keeps_boundary(rest, i - l);
    } else {
        assert(l == 1);
    }
}

/// Splits a response at its first blank line into the header block and the
/// body; a response without one is all headers.
pub fn split_response(resp: &str) -> (r: (&str, &str))
    ensures
        match first_blank_line(resp.spec_bytes()) {
            Some(p) => r.0.spec_bytes() == resp.spec_bytes().take(p) && r.1.spec_bytes()
                == resp.spec_bytes().skip(p + 4),
            None => r.0@ == resp@ && r.1@.len() == 0,
        },
{
    let b = resp.as_bytes();
    let n = b.len();
    match find_blank_line(b) {
        Some(p) => {
            let ghost bytes = resp.spec_bytes();
            proof {
                vstd::utf8::encode_utf8_valid_utf8(resp@);
                vstd::utf8::is_char_boundary_iff_is_leading_byte(bytes, p as int);
                lemma_ascii_keeps_boundary(bytes, p as int);
                lemma_ascii_keeps_boundary(bytes, p + 1);
                lemma_ascii_keeps_boundary(bytes, p + 2);
                lemma_ascii_keeps_boundary(bytes, p + 3);
                assert(blank_line_at(bytes, p as int));
                assert(first_blank_line(bytes) == Some(p as int)) by {
                    let q = choose|i: int| blank_line_at(bytes, i) && forall|j: int| 0 <= j < i ==> !#[trigger] blank_line_at(bytes, j);
                    if q < p {
                    } else if q > p {
                        assert(!blank_line_at(bytes, p as int));
                    }
                }
            }
            assert(p + 4 <= n);
            let head = resp.split_at(p).0;
            let body = resp.split_at(p + 4).1;
            assert(head.spec_bytes() =~= bytes.take(p as int));
            assert(body.spec_bytes() =~= bytes.skip(p + 4));
            (head, body)
        },
        None => {
            proof {
                reveal_strlit("");
            }
            (resp, "")
        },
    }
}

} // verus!
