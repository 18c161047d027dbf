//! The frame assembler: the socket's byte stream in, one event per well-formed reply out,
//! whatever the sizes of the chunks in which the bytes arrive.
use vstd::prelude::*;

use crate::header::reply::ReplyOperation;
use crate::header::{
    decode_header, lemma_decode_header_prefix, HeaderError, IpcMessageHeader, Operation,
    IPC_HEADER_SIZE,
};
use crate::operation::addrinfo::decode_addrinfo_reply;
use crate::operation::browse::decode_browse_reply;
use crate::operation::resolve::decode_resolve_reply;
use crate::operation::{addrinfo, browse, resolve, ReplyFlags};
use crate::wire::copy_range;
use crate::{
    AddressInfo, AddressInfoView, EventView, InternalError, IpAddress, MDnsResponderEvent,
    Resolved, ResolvedView, Service, ServiceView,
};

verus! {

/// The event of a browse reply body: the instance appeared when the reply's `Add` flag is
/// set, and went away otherwise.
pub open spec fn browse_event(body: Seq<u8>) -> Option<EventView> {
    match decode_browse_reply(body) {
        Some(r) => {
            let s = ServiceView {
                name: r.service_name,
                service_type: r.service_type,
                domain: r.service_domain,
            };
            if r.header.flags.contains(ReplyFlags::Add) {
                Some(EventView::ServiceAdded(s))
            } else {
                Some(EventView::ServiceRemoved(s))
            }
        },
        None => None,
    }
}

/// The event of a resolve reply body.
pub open spec fn resolve_event(body: Seq<u8>) -> Option<EventView> {
    match decode_resolve_reply(body) {
        Some(r) => Some(
            EventView::ServiceResolved(
                ResolvedView {
                    full_name: r.full_name,
                    host_target: r.host_target,
                    port: r.port,
                    txt_data: r.txt_data,
                },
            ),
        ),
        None => None,
    }
}

/// The event of an address reply body: only a record of 4 or 16 data bytes is an address.
pub open spec fn address_event(body: Seq<u8>) -> Option<EventView> {
    match decode_addrinfo_reply(body) {
        Some(r) => if r.rdata.len() == 4 || r.rdata.len() == 16 {
            Some(EventView::AddressInfoResolved(AddressInfoView { hostname: r.name, address: r.rdata }))
        } else {
            None
        },
        None => None,
    }
}

/// The event that a complete frame `f` (header and body, nothing more) stands for: one for
/// each browse, resolve or address reply whose body can be read, none for any other frame.
pub open spec fn event_of_frame(f: Seq<u8>) -> Option<EventView> {
    match decode_header(f) {
        Ok(h) => {
            let body = f.subrange(IPC_HEADER_SIZE as int, f.len() as int);
            match h.operation {
                Operation::Reply(ReplyOperation::Browse) => browse_event(body),
                Operation::Reply(ReplyOperation::Resolve) => resolve_event(body),
                Operation::Reply(ReplyOperation::AddressInfo) => address_event(body),
                _ => None,
            }
        },
        Err(_) => None,
    }
}

/// The event of an optional value, as a sequence of zero or one events.
pub open spec fn events_of(e: Option<EventView>) -> Seq<EventView> {
    match e {
        Some(v) => seq![v],
        None => seq![],
    }
}

/// The view of an optional event.
pub open spec fn opt_view(e: Option<MDnsResponderEvent>) -> Option<EventView> {
    match e {
        Some(v) => Some(v@),
        None => None,
    }
}

/// Draining buffer `b`: take complete frames from its front, with their events, until fewer
/// bytes remain than the next frame needs. A header that cannot be read (an unknown
/// operation), or one that names a request rather than a reply, discards the whole buffer. The result is the events, in order, and what
/// remains of the buffer.
pub open spec fn drain(b: Seq<u8>) -> (Seq<EventView>, Seq<u8>)
    decreases b.len(),
{
    match decode_header(b) {
        Err(HeaderError::ShortBuffer) => (seq![], b),
        Err(HeaderError::UnknownOperation) => (seq![], seq![]),
        Ok(h) => {
            let n = IPC_HEADER_SIZE + h.data_length;
            if h.operation is Request {
                (seq![], seq![])
            } else if b.len() < n {
                (seq![], b)
            } else {
                let rest = drain(b.subrange(n as int, b.len() as int));
                (events_of(event_of_frame(b.subrange(0, n as int))) + rest.0, rest.1)
            }
        },
    }
}

/// The address whose octets are `rdata`, if it holds 4 (IPv4) or 16 (IPv6) of them.
pub fn ip_address_from(rdata: &Vec<u8>) -> (r: Option<IpAddress>)
    ensures
        r is Some <==> (rdata@.len() == 4 || rdata@.len() == 16),
        r matches Some(a) ==> a@ == rdata@,
{
    if rdata.len() == 4 {
        let a: [u8; 4] = [rdata[0], rdata[1], rdata[2], rdata[3]];
        assert(a@ =~= rdata@);
        Some(IpAddress::V4(a))
    } else if rdata.len() == 16 {
        let mut a: [u8; 16] = [0u8; 16];
        let mut i: usize = 0;
        while i < 16
            invariant
                0 <= i <= 16,
                rdata@.len() == 16,
                forall|j: int| 0 <= j < i ==> a@[j] == rdata@[j],
            decreases 16 - i,
        {
            a[i] = rdata[i];
            i = i + 1;
        }
        assert(a@ =~= rdata@);
        Some(IpAddress::V6(a))
    } else {
        None
    }
}

/// Splits `b` at `n` and restates the header of the front part.
proof fn lemma_decode_header_front(b: Seq<u8>, n: int)
    requires
        IPC_HEADER_SIZE <= n <= b.len(),
    ensures
        decode_header(b.subrange(0, n)) == decode_header(b),
{
    assert(b =~= b.subrange(0, n) + b.subrange(n, b.len() as int));
    lemma_decode_header_prefix(b.subrange(0, n), b.subrange(n, b.len() as int));
}

fn parse_browse_reply(body: &[u8]) -> (r: Option<MDnsResponderEvent>)
    ensures
        opt_view(r) == browse_event(body@),
{
    match browse::Reply::from_bytes(body) {
        Ok(reply) => {
            let is_add = reply.is_add();
            let service = Service {
                name: reply.service_name,
                service_type: reply.service_type,
                domain: reply.service_domain,
            };
            if is_add {
                Some(MDnsResponderEvent::ServiceAdded(service))
            } else {
                Some(MDnsResponderEvent::ServiceRemoved(service))
            }
        },
        Err(_) => None,
    }
}

fn parse_resolve_reply(body: &[u8]) -> (r: Option<MDnsResponderEvent>)
    ensures
        opt_view(r) == resolve_event(body@),
{
    match resolve::Reply::from_bytes(body) {
        Ok(reply) => {
            let resolved = Resolved {
                full_name: reply.full_name,
                host_target: reply.host_target,
                port: reply.port,
                txt_data: reply.txt_data,
            };
            Some(MDnsResponderEvent::ServiceResolved(resolved))
        },
        Err(_) => None,
    }
}

fn parse_address_info_reply(body: &[u8]) -> (r: Option<MDnsResponderEvent>)
    ensures
        opt_view(r) == address_event(body@),
{
    match addrinfo::Reply::from_bytes(body) {
        Ok(reply) => match ip_address_from(&reply.rdata) {
            Some(address) => Some(
                MDnsResponderEvent::AddressInfoResolved(AddressInfo { hostname: reply.name, address }),
            ),
            None => None,
        },
        Err(_) => None,
    }
}

/// One pass over the front of `buf`: the length and event of the complete frame there; or
/// `IncompleteFrame` when more bytes must come first; or `FrameParsingFailed` when its
/// header names no known operation, or names a request rather than a reply.
pub fn parse_frame(buf: &[u8]) -> (r: Result<(usize, Option<MDnsResponderEvent>), InternalError>)
    ensures
        match r {
            Ok((n, event)) => decode_header(buf@) matches Ok(h) && h.operation is Reply && n == IPC_HEADER_SIZE
                + h.data_length && n <= buf@.len() && opt_view(event) == event_of_frame(
                buf@.subrange(0, n as int),
            ),
            Err(InternalError::IncompleteFrame) => decode_header(buf@) == Err::<
                IpcMessageHeader,
                HeaderError,
            >(HeaderError::ShortBuffer) || (decode_header(buf@) matches Ok(h) && h.operation is Reply
                && buf@.len() < IPC_HEADER_SIZE + h.data_length),
            Err(InternalError::FrameParsingFailed) => decode_header(buf@) == Err::<
                IpcMessageHeader,
                HeaderError,
            >(HeaderError::UnknownOperation) || (decode_header(buf@) matches Ok(h)
                && h.operation is Request),
        },
{
    let header = match IpcMessageHeader::from(buf) {
        Ok(h) => h,
        Err(HeaderError::ShortBuffer) => {
            return Err(InternalError::IncompleteFrame);
        },
        Err(HeaderError::UnknownOperation) => {
            return Err(InternalError::FrameParsingFailed);
        },
    };
    if let Operation::Request(_) = header.operation {
        return Err(InternalError::FrameParsingFailed);
    }
    let data_length = header.data_length as usize;
    if buf.len() - IPC_HEADER_SIZE < data_length {
        return Err(InternalError::IncompleteFrame);
    }
    let need = IPC_HEADER_SIZE + data_length;
    let body = copy_range(buf, IPC_HEADER_SIZE, need);
    proof {
        lemma_decode_header_front(buf@, need as int);
        assert(buf@.subrange(0, need as int).subrange(IPC_HEADER_SIZE as int, need as int)
            =~= body@);
    }
    let event = match header.operation {
        Operation::Reply(ReplyOperation::Browse) => parse_browse_reply(body.as_slice()),
        Operation::Reply(ReplyOperation::Resolve) => parse_resolve_reply(body.as_slice()),
        Operation::Reply(ReplyOperation::AddressInfo) => parse_address_info_reply(
            body.as_slice(),
        ),
        _ => None,
    };
    Ok((need, event))
}

/// The rolling buffer of bytes read from the socket that do not yet form a whole frame.
pub struct Assembler {
    buffer: Vec<u8>,
}

impl View for Assembler {
    type V = Seq<u8>;

    closed spec fn view(&self) -> Seq<u8> {
        self.buffer@
    }
}

/// What came of one wait on the socket.
pub enum ReadOutcome {
    /// The cancellation signal was tripped.
    Cancelled,
    /// A read returned these bytes; none means the daemon closed the connection.
    Data(Vec<u8>),
    /// The socket was not ready after all.
    WouldBlock,
    /// The read failed.
    Failed,
}

/// What the reader does next.
pub enum ReaderAction {
    /// Publish these events, in order, then wait for the socket again.
    Publish(Vec<MDnsResponderEvent>),
    /// Wait for the socket again.
    Wait,
    /// Stop reading.
    Stop,
}

impl Assembler {
    /// An assembler with an empty buffer.
    pub fn new() -> (r: Self)
        ensures
            r@ == Seq::<u8>::empty(),
    {
        Assembler { buffer: Vec::new() }
    }

    /// The number of bytes waiting for the rest of their frame.
    pub fn pending(&self) -> (r: usize)
        ensures
            r == self@.len(),
    {
        self.buffer.len()
    }

    /// Appends `bytes` to the buffer and drains it; returns the events of the frames taken.
    pub fn feed(&mut self, bytes: &[u8]) -> (r: Vec<MDnsResponderEvent>)
        ensures
            (r.deep_view(), final(self)@) == drain(old(self)@ + bytes@),
    {
        let mut i: usize = 0;
        while i < bytes.len()
            invariant
                0 <= i <= bytes@.len(),
                self.buffer@ == old(self)@ + bytes@.subrange(0, i as int),
            decreases bytes@.len() - i,
        {
            self.buffer.push(bytes[i]);
            i = i + 1;
            assert(self.buffer@ =~= old(self)@ + bytes@.subrange(0, i as int));
        }
        assert(bytes@.subrange(0, bytes@.len() as int) =~= bytes@);
        let ghost total = self.buffer@;
        let mut events: Vec<MDnsResponderEvent> = Vec::new();
        loop
            invariant
                drain(total) == (
                    events.deep_view() + drain(self.buffer@).0,
                    drain(self.buffer@).1,
                ),
            ensures
                drain(total) == (events.deep_view(), self.buffer@),
            decreases self.buffer@.len(),
        {
            match parse_frame(self.buffer.as_slice()) {
                Ok((n, event)) => {
                    let ghost before = events.deep_view();
                    let ghost old_buf = self.buffer@;
                    match event {
                        Some(e) => {
                            events.push(e);
                        },
                        None => {},
                    }
                    let rest = self.buffer.split_off(n);
                    self.buffer = rest;
                    proof {
                        assert(events.deep_view() =~= before + events_of(
                            event_of_frame(old_buf.subrange(0, n as int)),
                        ));
                        let d = drain(self.buffer@);
                        assert(drain(old_buf) == (
                            events_of(event_of_frame(old_buf.subrange(0, n as int))) + d.0,
                            d.1,
                        ));
                        assert(before + (events_of(event_of_frame(old_buf.subrange(0, n as int)))
                            + d.0) =~= events.deep_view() + d.0);
                    }
                },
                Err(InternalError::IncompleteFrame) => {
                    proof {
                        assert(drain(self.buffer@).0 =~= Seq::<EventView>::empty());
                        assert(events.deep_view() + Seq::<EventView>::empty()
                            =~= events.deep_view());
                    }
                    break ;
                },
                Err(InternalError::FrameParsingFailed) => {
                    self.buffer.clear();
                    proof {
                        assert(events.deep_view() + Seq::<EventView>::empty()
                            =~= events.deep_view());
                    }
                    break ;
                },
            }
        }
        events
    }

    /// Decides what the reader does with one outcome of waiting on the socket. Cancellation
    /// stops it and discards what the buffer held; bytes are fed to the buffer and their
    /// events published; no bytes, or a failed read, stop it; a spurious wakeup waits again.
    pub fn on_read(&mut self, outcome: ReadOutcome) -> (r: ReaderAction)
        ensures
            match outcome {
                ReadOutcome::Cancelled => r is Stop && final(self)@ == Seq::<u8>::empty(),
                ReadOutcome::Data(bytes) => if bytes@.len() == 0 {
                    r is Stop && final(self)@ == old(self)@
                } else {
                    r matches ReaderAction::Publish(events) && (events.deep_view(), final(self)@)
                        == drain(old(self)@ + bytes@)
                },
                ReadOutcome::WouldBlock => r is Wait && final(self)@ == old(self)@,
                ReadOutcome::Failed => r is Stop && final(self)@ == old(self)@,
            },
    {
        match outcome {
            ReadOutcome::Cancelled => {
                self.buffer.clear();
                ReaderAction::Stop
            },
            ReadOutcome::Data(bytes) => {
                if bytes.len() == 0 {
                    ReaderAction::Stop
                } else {
                    ReaderAction::Publish(self.feed(bytes.as_slice()))
                }
            },
            ReadOutcome::WouldBlock => ReaderAction::Wait,
            ReadOutcome::Failed => ReaderAction::Stop,
        }
    }
}

/// `s` is a sequence of complete reply frames, each with a header that can be read.
pub open spec fn well_framed(s: Seq<u8>) -> bool
    decreases s.len(),
{
    if s.len() == 0 {
        true
    } else {
        match decode_header(s) {
            Ok(h) => h.operation is Reply && IPC_HEADER_SIZE + h.data_length <= s.len() && well_framed(
                s.subrange(IPC_HEADER_SIZE + h.data_length, s.len() as int),
            ),
            Err(_) => false,
        }
    }
}

/// `f` is exactly one reply frame: a header that can be read and names a reply, and as many
/// body bytes as it announces.
pub open spec fn is_frame(f: Seq<u8>) -> bool {
    decode_header(f) matches Ok(h) && h.operation is Reply && f.len() == IPC_HEADER_SIZE
        + h.data_length
}

/// Feeding `chunks` one after another to an assembler whose buffer holds `buf`: all the
/// events, in order, and the buffer at the end.
pub open spec fn feed_chunks(buf: Seq<u8>, chunks: Seq<Seq<u8>>) -> (Seq<EventView>, Seq<u8>)
    decreases chunks.len(),
{
    if chunks.len() == 0 {
        (seq![], buf)
    } else {
        let first = drain(buf + chunks[0]);
        let rest = feed_chunks(first.1, chunks.drop_first());
        (first.0 + rest.0, rest.1)
    }
}

/// What a drain leaves behind holds no complete frame.
pub proof fn lemma_drain_leaves_pending(a: Seq<u8>)
    ensures
        drain(drain(a).1) == (Seq::<EventView>::empty(), drain(a).1),
    decreases a.len(),
{
    match decode_header(a) {
        Err(HeaderError::ShortBuffer) => {},
        Err(HeaderError::UnknownOperation) => {
            assert(decode_header(Seq::<u8>::empty()) == Err::<IpcMessageHeader, HeaderError>(
                HeaderError::ShortBuffer,
            ));
        },
        Ok(h) => {
            let n = IPC_HEADER_SIZE + h.data_length;
            if h.operation is Request {
                assert(decode_header(Seq::<u8>::empty()) == Err::<IpcMessageHeader, HeaderError>(
                    HeaderError::ShortBuffer,
                ));
            } else if a.len() >= n {
                lemma_drain_leaves_pending(a.subrange(n as int, a.len() as int));
            }
        },
    }
}

/// Draining a prefix `a` of a sequence of frames, then draining what it left with the rest
/// `b`, takes the same events as draining `a + b` at once, and leaves the same bytes.
pub proof fn lemma_drain_append(a: Seq<u8>, b: Seq<u8>)
    requires
        well_framed(a + b),
    ensures
        well_framed(drain(a).1 + b),
        drain(a + b) == (drain(a).0 + drain(drain(a).1 + b).0, drain(drain(a).1 + b).1),
    decreases a.len(),
{
    if a.len() < IPC_HEADER_SIZE {
        assert(drain(a) == (Seq::<EventView>::empty(), a));
        assert(Seq::<EventView>::empty() + drain(a + b).0 =~= drain(a + b).0);
    } else {
        lemma_decode_header_prefix(a, b);
        let h = decode_header(a)->Ok_0;
        let n = IPC_HEADER_SIZE + h.data_length;
        if a.len() < n {
            assert(drain(a) == (Seq::<EventView>::empty(), a));
            assert(Seq::<EventView>::empty() + drain(a + b).0 =~= drain(a + b).0);
        } else {
            let a2 = a.subrange(n as int, a.len() as int);
            assert((a + b).subrange(0, n as int) =~= a.subrange(0, n as int));
            assert((a + b).subrange(n as int, (a + b).len() as int) =~= a2 + b);
            lemma_drain_append(a2, b);
            let e = events_of(event_of_frame(a.subrange(0, n as int)));
            assert(drain(a) == (e + drain(a2).0, drain(a2).1));
            assert(drain(a + b) == (e + drain(a2 + b).0, drain(a2 + b).1));
            assert(e + (drain(a2).0 + drain(drain(a2).1 + b).0) =~= (e + drain(a2).0) + drain(
                drain(a2).1 + b,
            ).0);
        }
    }
}

/// Feeding chunks to an assembler holding no complete frame takes the events that draining
/// everything at once takes.
pub proof fn lemma_feed_chunks(buf: Seq<u8>, chunks: Seq<Seq<u8>>)
    requires
        well_framed(buf + chunks.flatten()),
        drain(buf) == (Seq::<EventView>::empty(), buf),
    ensures
        feed_chunks(buf, chunks) == drain(buf + chunks.flatten()),
    decreases chunks.len(),
{
    if chunks.len() == 0 {
        assert(buf + chunks.flatten() =~= buf);
    } else {
        let c0 = chunks[0];
        let rest = chunks.drop_first();
        assert(chunks.flatten() == c0 + rest.flatten());
        assert(buf + chunks.flatten() =~= (buf + c0) + rest.flatten());
        lemma_drain_append(buf + c0, rest.flatten());
        lemma_drain_leaves_pending(buf + c0);
        lemma_feed_chunks(drain(buf + c0).1, rest);
    }
}

/// Draining a sequence of frames leaves nothing behind.
pub proof fn lemma_well_framed_drains_all(s: Seq<u8>)
    requires
        well_framed(s),
    ensures
        drain(s).1 == Seq::<u8>::empty(),
    decreases s.len(),
{
    if s.len() > 0 {
        let h = decode_header(s)->Ok_0;
        let n = IPC_HEADER_SIZE + h.data_length;
        lemma_well_framed_drains_all(s.subrange(n as int, s.len() as int));
    } else {
        assert(decode_header(s) == Err::<IpcMessageHeader, HeaderError>(HeaderError::ShortBuffer));
    }
}

/// However a sequence of complete frames is cut into chunks (byte by byte, frame by frame, or
/// any other way), feeding the chunks in order to a new assembler yields the same events, in
/// the same order, as draining the whole sequence at once, and leaves the buffer empty.
pub proof fn lemma_framing_independent_of_chunking(chunks: Seq<Seq<u8>>)
    requires
        well_framed(chunks.flatten()),
    ensures
        feed_chunks(Seq::<u8>::empty(), chunks) == (drain(chunks.flatten()).0, Seq::<u8>::empty()),
{
    assert(Seq::<u8>::empty() + chunks.flatten() =~= chunks.flatten());
    assert(decode_header(Seq::<u8>::empty()) == Err::<IpcMessageHeader, HeaderError>(
        HeaderError::ShortBuffer,
    ));
    lemma_feed_chunks(Seq::<u8>::empty(), chunks);
    lemma_well_framed_drains_all(chunks.flatten());
}

/// A frame followed by more bytes drains as the frame's event, then the rest.
proof fn lemma_drain_frame_then(f: Seq<u8>, r: Seq<u8>)
    requires
        is_frame(f),
    ensures
        drain(f + r) == (events_of(event_of_frame(f)) + drain(r).0, drain(r).1),
        well_framed(r) ==> well_framed(f + r),
{
    lemma_decode_header_prefix(f, r);
    let s = f + r;
    let n = f.len();
    assert(s.subrange(0, n as int) =~= f);
    assert(s.subrange(n as int, s.len() as int) =~= r);
}

/// The events of the frames in `frames`, one per frame, in order.
proof fn lemma_frame_events_split(frames: Seq<Seq<u8>>)
    requires
        frames.len() > 0,
    ensures
        frames.map_values(|f: Seq<u8>| event_of_frame(f)->0) == seq![event_of_frame(frames[0])->0]
            + frames.drop_first().map_values(|f: Seq<u8>| event_of_frame(f)->0),
{
    assert(frames.map_values(|f: Seq<u8>| event_of_frame(f)->0) =~= seq![
        event_of_frame(frames[0])->0,
    ] + frames.drop_first().map_values(|f: Seq<u8>| event_of_frame(f)->0));
}

/// A sequence of N frames, each of which is a reply with an event, drains to exactly N
/// events: the frames' own, in their order.
pub proof fn lemma_one_event_per_frame(frames: Seq<Seq<u8>>)
    requires
        forall|i: int| 0 <= i < frames.len() ==> is_frame(#[trigger] frames[i]),
        forall|i: int| 0 <= i < frames.len() ==> (#[trigger] event_of_frame(frames[i])) is Some,
    ensures
        well_framed(frames.flatten()),
        drain(frames.flatten()) == (
            frames.map_values(|f: Seq<u8>| event_of_frame(f)->0),
            Seq::<u8>::empty(),
        ),
    decreases frames.len(),
{
    let evs = frames.map_values(|f: Seq<u8>| event_of_frame(f)->0);
    if frames.len() == 0 {
        assert(decode_header(Seq::<u8>::empty()) == Err::<IpcMessageHeader, HeaderError>(
            HeaderError::ShortBuffer,
        ));
        assert(evs =~= Seq::<EventView>::empty());
    } else {
        let f0 = frames[0];
        let rest = frames.drop_first();
        assert forall|i: int| 0 <= i < rest.len() implies is_frame(#[trigger] rest[i]) by {
            assert(rest[i] == frames[i + 1]);
        }
        assert forall|i: int| 0 <= i < rest.len() implies (#[trigger] event_of_frame(
            rest[i],
        )) is Some by {
            assert(rest[i] == frames[i + 1]);
        }
        lemma_one_event_per_frame(rest);
        assert(frames.flatten() == f0 + rest.flatten());
        lemma_drain_frame_then(f0, rest.flatten());
        lemma_frame_events_split(frames);
    }
}

} // verus!
