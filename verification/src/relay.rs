//! The decisions of the two relays that forward bytes from one socket to
//! another. The caller performs the reads and writes that a relay asks for
//! and hands back what they returned.
//!
//! `FrameRelay` forwards whole IP frames: it reads until the buffer holds a
//! complete frame, writes that frame and every further complete frame behind
//! it, then moves the incomplete tail to the front of the buffer and reads
//! again. `ChunkRelay` forwards whatever one read returned before reading again.
use vstd::prelude::*;
use crate::ip_frame::{lemma_next_frame_extends, next_frame, spec_next_frame};

verus! {

/// Size of the buffer of a relay.
pub const RELAY_BUFFER_SIZE: usize = 32000;

/// What a relay asks its caller to do next.
#[derive(Debug, Clone, Copy, PartialEq, Eq, Structural)]
pub enum RelayAction {
    /// Read at most `max_len` bytes from the source and hand them to `on_read`.
    Read { max_len: usize },
    /// Write the bytes of `unsent()` (`len` of them, at least one) to the
    /// destination and hand the number written to `on_written`.
    Write { len: usize },
    /// The frame relay met a frame that a header announces as empty: it makes
    /// no progress past it and asks for no read or write ever again.
    Stalled,
}

/// The state of a frame relay, as a mathematical value.
pub struct FrameRelayState {
    /// The whole buffer.
    pub buf: Seq<u8>,
    /// Bytes `buf[sent..received]` hold data read and not yet written.
    pub received: nat,
    /// Bytes `buf[0..sent]` have been written.
    pub sent: nat,
    /// Start of the frame being written.
    pub frame_start: nat,
    /// End of the frame being written.
    pub frame_end: nat,
    /// Whether the relay writes (or else reads).
    pub writing: bool,
}

impl FrameRelayState {
    /// The bounds that every state of a relay keeps.
    pub open spec fn wf(self) -> bool {
        &&& self.buf.len() == RELAY_BUFFER_SIZE
        &&& self.frame_start <= self.sent <= self.frame_end <= self.received <= RELAY_BUFFER_SIZE
        &&& !self.writing ==> self.sent == 0 && self.frame_start == 0 && self.frame_end == 0
    }

    /// The bytes read and not yet written, in the order they arrived.
    pub open spec fn pending(self) -> Seq<u8> {
        self.buf.subrange(self.sent as int, self.received as int)
    }

    /// The bytes that the next write is asked to carry.
    pub open spec fn unsent(self) -> Seq<u8> {
        self.buf.subrange(self.sent as int, self.frame_end as int)
    }

    /// The action that the state asks for.
    pub open spec fn action(self) -> RelayAction {
        if !self.writing {
            RelayAction::Read { max_len: (RELAY_BUFFER_SIZE - self.received) as usize }
        } else if self.sent < self.frame_end {
            RelayAction::Write { len: (self.frame_end - self.sent) as usize }
        } else {
            RelayAction::Stalled
        }
    }
}

/// `buf` with its first `k` bytes moved behind the others.
pub open spec fn rotate_left(buf: Seq<u8>, k: nat) -> Seq<u8> {
    buf.skip(k as int) + buf.take(k as int)
}

/// The state after `data` was read into a relay that reads: the data is put
/// behind the bytes already received, and where the received bytes now start
/// with a complete frame, the relay writes that frame (a frame announced as
/// empty leaves nothing to write, and the relay stalls on it).
pub open spec fn frame_after_read(s: FrameRelayState, data: Seq<u8>) -> FrameRelayState {
    let buf = s.buf.take(s.received as int) + data + s.buf.skip((s.received + data.len()) as int);
    let received = s.received + data.len();
    match spec_next_frame(buf.take(received as int)) {
        Some(size) => FrameRelayState {
            buf,
            received,
            sent: 0,
            frame_start: 0,
            frame_end: size as nat,
            writing: true,
        },
        None => FrameRelayState { buf, received, sent: 0, frame_start: 0, frame_end: 0, writing: false },
    }
}

/// The state after `n` bytes of the frame were written. While the frame is not
/// all written, the relay goes on writing it; then, where a complete frame
/// follows in the buffer, it writes that one (stalling where it is announced
/// as empty); otherwise it moves the remaining bytes to the front of the
/// buffer and reads.
pub open spec fn frame_after_write(s: FrameRelayState, n: nat) -> FrameRelayState {
    let sent = s.sent + n;
    if sent < s.frame_end {
        FrameRelayState { sent, ..s }
    } else {
        match spec_next_frame(s.buf.subrange(sent as int, s.received as int)) {
            Some(size) => FrameRelayState { sent, frame_start: sent, frame_end: sent + size as nat, ..s },
            None => FrameRelayState {
                buf: if sent < s.received { rotate_left(s.buf, sent) } else { s.buf },
                received: (s.received - sent) as nat,
                sent: 0,
                frame_start: 0,
                frame_end: 0,
                writing: false,
            },
        }
    }
}

/// A read or a write that a relay's caller performed.
pub enum RelayEvent {
    /// A read returned these bytes.
    Read(Seq<u8>),
    /// A write carried this many bytes.
    Wrote(nat),
}

/// Whether `event` is one that the state allows: a read of at most the free
/// room while it reads, a write of at most the unsent bytes while it writes.
pub open spec fn frame_event_ok(s: FrameRelayState, event: RelayEvent) -> bool {
    match event {
        RelayEvent::Read(data) => !s.writing && data.len() <= RELAY_BUFFER_SIZE - s.received,
        RelayEvent::Wrote(n) => s.writing && s.sent < s.frame_end && n <= s.frame_end - s.sent,
    }
}

/// The state after one event.
pub open spec fn frame_step(s: FrameRelayState, event: RelayEvent) -> FrameRelayState {
    match event {
        RelayEvent::Read(data) => frame_after_read(s, data),
        RelayEvent::Wrote(n) => frame_after_write(s, n),
    }
}

/// The bytes that one event moved out of the relay.
pub open spec fn frame_step_output(s: FrameRelayState, event: RelayEvent) -> Seq<u8> {
    match event {
        RelayEvent::Read(_) => Seq::empty(),
        RelayEvent::Wrote(n) => s.unsent().take(n as int),
    }
}

/// Whether every event of `events` is allowed in the state it meets.
pub open spec fn frame_trace_ok(s: FrameRelayState, events: Seq<RelayEvent>) -> bool
    decreases events.len(),
{
    events.len() == 0 || (frame_event_ok(s, events[0]) && frame_trace_ok(
        frame_step(s, events[0]),
        events.drop_first(),
    ))
}

/// The state after all of `events`.
pub open spec fn frame_run(s: FrameRelayState, events: Seq<RelayEvent>) -> FrameRelayState
    decreases events.len(),
{
    if events.len() == 0 {
        s
    } else {
        frame_run(frame_step(s, events[0]), events.drop_first())
    }
}

/// The bytes that `events` moved out of the relay, in order.
pub open spec fn frame_output(s: FrameRelayState, events: Seq<RelayEvent>) -> Seq<u8>
    decreases events.len(),
{
    if events.len() == 0 {
        Seq::empty()
    } else {
        frame_step_output(s, events[0]) + frame_output(frame_step(s, events[0]), events.drop_first())
    }
}

/// The bytes that the reads of `events` returned, in order.
pub open spec fn input_of(events: Seq<RelayEvent>) -> Seq<u8>
    decreases events.len(),
{
    if events.len() == 0 {
        Seq::empty()
    } else {
        match events[0] {
            RelayEvent::Read(data) => data + input_of(events.drop_first()),
            RelayEvent::Wrote(_) => input_of(events.drop_first()),
        }
    }
}

/// A read puts its bytes behind those that wait to be written, and the relay
/// keeps its bounds.
pub proof fn lemma_frame_read_appends(s: FrameRelayState, data: Seq<u8>)
    requires
        s.wf(),
        !s.writing,
        data.len() <= RELAY_BUFFER_SIZE - s.received,
    ensures
        frame_after_read(s, data).wf(),
        frame_after_read(s, data).pending() =~= s.pending() + data,
{
    let t = frame_after_read(s, data);
    let received = s.received + data.len();
    if let Some(size) = spec_next_frame(t.buf.take(received as int)) {
        assert(t.buf.take(received as int).len() == received);
    }
}

/// A write carries the oldest bytes that wait, and they no longer wait after it;
/// the relay keeps its bounds.
pub proof fn lemma_frame_write_consumes(s: FrameRelayState, n: nat)
    requires
        s.wf(),
        s.writing,
        s.sent < s.frame_end,
        n <= s.frame_end - s.sent,
    ensures
        frame_after_write(s, n).wf(),
        s.unsent().take(n as int) =~= s.pending().take(n as int),
        frame_after_write(s, n).pending() =~= s.pending().skip(n as int),
{
    let sent = s.sent + n;
    if sent >= s.frame_end {
        let rest = s.buf.subrange(sent as int, s.received as int);
        if let Some(size) = spec_next_frame(rest) {
        } else if sent < s.received {
            let t = frame_after_write(s, n);
            assert(t.pending() =~= s.pending().skip(n as int));
        }
    }
}

/// No byte is lost, duplicated or reordered: along any sequence of allowed
/// reads and writes, the bytes written followed by those still waiting are the
/// bytes that waited before followed by those read. The relay keeps its bounds.
pub proof fn lemma_frame_relay_forwards_in_order(s: FrameRelayState, events: Seq<RelayEvent>)
    requires
        s.wf(),
        frame_trace_ok(s, events),
    ensures
        frame_run(s, events).wf(),
        frame_output(s, events) + frame_run(s, events).pending() =~= s.pending() + input_of(events),
    decreases events.len(),
{
    if events.len() > 0 {
        let e = events[0];
        let t = frame_step(s, e);
        match e {
            RelayEvent::Read(data) => lemma_frame_read_appends(s, data),
            RelayEvent::Wrote(n) => lemma_frame_write_consumes(s, n),
        }
        lemma_frame_relay_forwards_in_order(t, events.drop_first());
        match e {
            RelayEvent::Read(data) => {
                assert(s.pending() + input_of(events) =~= t.pending() + input_of(events.drop_first()));
            },
            RelayEvent::Wrote(n) => {
                assert(s.pending() =~= s.pending().take(n as int) + s.pending().skip(n as int));
                assert(s.pending() + input_of(events) =~= frame_step_output(s, e) + (t.pending()
                    + input_of(events.drop_first())));
            },
        }
    }
}

/// Whether the first `m` bytes of `stream` are whole frames, one behind the
/// other, each of the size that `spec_next_frame` finds at its start.
pub open spec fn frame_cuts(stream: Seq<u8>, m: nat) -> bool
    decreases m,
{
    if m == 0 {
        true
    } else {
        match spec_next_frame(stream) {
            Some(n) => 0 < n <= m && frame_cuts(stream.skip(n as int), (m - n) as nat),
            None => false,
        }
    }
}

/// Whole frames stay whole frames when more bytes arrive behind them.
pub proof fn lemma_frame_cuts_extend(stream: Seq<u8>, more: Seq<u8>, m: nat)
    requires
        frame_cuts(stream, m),
    ensures
        frame_cuts(stream + more, m),
    decreases m,
{
    if m > 0 {
        let n = spec_next_frame(stream).unwrap();
        lemma_next_frame_extends(stream, more);
        assert((stream + more).skip(n as int) =~= stream.skip(n as int) + more);
        lemma_frame_cuts_extend(stream.skip(n as int), more, (m - n) as nat);
    }
}

/// A complete frame behind whole frames makes whole frames.
pub proof fn lemma_frame_cuts_step(stream: Seq<u8>, a: nat, n: usize)
    requires
        frame_cuts(stream, a),
        a <= stream.len(),
        spec_next_frame(stream.skip(a as int)) == Some(n),
        n > 0,
    ensures
        frame_cuts(stream, (a + n) as nat),
    decreases a,
{
    if a == 0 {
        assert(stream.skip(0) =~= stream);
        assert(frame_cuts(stream.skip(n as int), 0));
        assert(frame_cuts(stream, (a + n) as nat));
    } else {
        let n0 = spec_next_frame(stream).unwrap();
        let rest = stream.skip(n0 as int);
        assert(rest.skip((a - n0) as int) =~= stream.skip(a as int));
        lemma_frame_cuts_step(rest, (a - n0) as nat, n);
        assert(((a + n) - n0) as nat == ((a - n0) as nat + n) as nat);
        assert(frame_cuts(stream, (a + n) as nat));
    }
}

/// How a frame relay stands to what it wrote (`out`) and what it read (`inp`):
/// its buffer holds the stream from where its last frame boundary before the
/// unwritten bytes lies on, `out` is the start of `inp`, the stream up to the
/// frame being written is whole frames, and that frame is the one that
/// `spec_next_frame` finds at its start.
pub open spec fn frame_relay_tracks(s: FrameRelayState, out: Seq<u8>, inp: Seq<u8>) -> bool {
    &&& s.wf()
    &&& s.sent <= out.len() <= inp.len()
    &&& s.buf.take(s.received as int) =~= inp.skip(out.len() - s.sent)
    &&& out =~= inp.take(out.len() as int)
    &&& frame_cuts(inp, (out.len() - s.sent + s.frame_start) as nat)
    &&& s.writing ==> spec_next_frame(s.buf.subrange(s.frame_start as int, s.received as int))
        == Some((s.frame_end - s.frame_start) as usize)
}

/// The bytes that one event put into the relay.
pub open spec fn step_input(event: RelayEvent) -> Seq<u8> {
    match event {
        RelayEvent::Read(data) => data,
        RelayEvent::Wrote(_) => Seq::empty(),
    }
}

proof fn lemma_frame_step_tracks(s: FrameRelayState, out: Seq<u8>, inp: Seq<u8>, e: RelayEvent)
    requires
        frame_relay_tracks(s, out, inp),
        frame_event_ok(s, e),
    ensures
        frame_relay_tracks(frame_step(s, e), out + frame_step_output(s, e), inp + step_input(e)),
{
    let t = frame_step(s, e);
    let q = out.len() - s.sent;
    match e {
        RelayEvent::Read(d) => {
            let inp2 = inp + d;
            let r = s.received;
            let r2 = s.received + d.len();
            let a = s.buf.take(r as int);
            assert(a.len() == r);
            assert(inp.skip(q).len() == r);
            assert(inp.len() == q + r);
            assert(t.buf == a + d + s.buf.skip(r2 as int));
            assert forall|i: int| 0 <= i < r2 implies t.buf[i] == inp2[q + i] by {
                if i < r {
                    assert(a[i] == inp.skip(q)[i]);
                }
            }
            assert(t.buf.take(r2 as int) =~= inp2.skip(q));
            assert(t.buf.subrange(0, r2 as int) =~= t.buf.take(r2 as int));
            assert(out + frame_step_output(s, e) =~= out);
            assert(out =~= inp2.take(out.len() as int));
            lemma_frame_cuts_extend(inp, d, q as nat);
        },
        RelayEvent::Wrote(n) => {
            let out2 = out + frame_step_output(s, e);
            let sent2 = s.sent + n;
            assert(inp + step_input(e) =~= inp);
            assert(inp.skip(q).len() == s.received);
            assert(inp.len() == q + s.received);
            assert(out2.len() == out.len() + n);
            assert forall|i: int| 0 <= i < s.received implies s.buf[i] == inp[q + i] by {
                assert(s.buf.take(s.received as int)[i] == inp.skip(q)[i]);
            }
            assert forall|i: int| 0 <= i < out2.len() implies out2[i] == inp[i] by {
                if i >= out.len() {
                    let j = i - out.len();
                    assert(out2[i] == s.buf[s.sent + j]);
                    assert(s.buf.take(s.received as int)[s.sent + j] == inp.skip(q)[s.sent + j]);
                } else {
                    assert(out2[i] == out[i]);
                    assert(out[i] == inp.take(out.len() as int)[i]);
                }
            }
            assert(out2 =~= inp.take(out2.len() as int));
            if sent2 >= s.frame_end {
                let fs = s.frame_start;
                assert(s.buf.subrange(fs as int, s.received as int) =~= inp.skip(q + fs));
                lemma_frame_cuts_step(inp, (q + fs) as nat, (s.frame_end - fs) as usize);
                let rest = s.buf.subrange(sent2 as int, s.received as int);
                assert(rest =~= inp.skip(q + sent2));
                if spec_next_frame(rest) is None {
                    assert(t.buf.take(t.received as int) =~= rest);
                }
            }
        },
    }
}

proof fn lemma_frame_run_tracks(s: FrameRelayState, out: Seq<u8>, inp: Seq<u8>, events: Seq<RelayEvent>)
    requires
        frame_relay_tracks(s, out, inp),
        frame_trace_ok(s, events),
    ensures
        frame_relay_tracks(frame_run(s, events), out + frame_output(s, events), inp + input_of(events)),
    decreases events.len(),
{
    if events.len() > 0 {
        let e = events[0];
        let t = frame_step(s, e);
        lemma_frame_step_tracks(s, out, inp, e);
        let rest = events.drop_first();
        lemma_frame_run_tracks(t, out + frame_step_output(s, e), inp + step_input(e), rest);
        assert(out + frame_step_output(s, e) + frame_output(t, rest) =~= out + frame_output(s, events));
        assert(inp + step_input(e) + input_of(rest) =~= inp + input_of(events));
    }
}

/// The state of a new frame relay.
pub open spec fn frame_relay_start() -> FrameRelayState {
    FrameRelayState {
        buf: Seq::new(RELAY_BUFFER_SIZE as nat, |i: int| 0u8),
        received: 0,
        sent: 0,
        frame_start: 0,
        frame_end: 0,
        writing: false,
    }
}

/// From a new frame relay, along any sequence of allowed reads and writes
/// (partial writes included), what was written is the start of what was read;
/// and whenever the relay reads, what it wrote is whole frames, each of the
/// size that `spec_next_frame` finds at its start in the stream read.
pub proof fn lemma_frame_relay_writes_whole_frames(events: Seq<RelayEvent>)
    requires
        frame_trace_ok(frame_relay_start(), events),
    ensures
        frame_output(frame_relay_start(), events) =~= input_of(events).take(
            frame_output(frame_relay_start(), events).len() as int,
        ),
        !frame_run(frame_relay_start(), events).writing ==> frame_cuts(
            input_of(events),
            frame_output(frame_relay_start(), events).len(),
        ),
{
    let s = frame_relay_start();
    let e = Seq::<u8>::empty();
    assert(s.buf.take(0) =~= e.skip(0));
    assert(e =~= e.take(0));
    lemma_frame_run_tracks(s, e, e, events);
    assert(e + frame_output(s, events) =~= frame_output(s, events));
    assert(e + input_of(events) =~= input_of(events));
}

/// A frame relay never reads while a complete frame waits: after any allowed
/// event, a relay that reads holds no bytes that `spec_next_frame` finds a
/// frame at the start of.
pub proof fn lemma_frame_step_reads_only_without_frame(s: FrameRelayState, e: RelayEvent)
    requires
        s.wf(),
        frame_event_ok(s, e),
    ensures
        !frame_step(s, e).writing ==> spec_next_frame(frame_step(s, e).pending()) is None,
{
    let t = frame_step(s, e);
    match e {
        RelayEvent::Read(d) => {
            let r2 = s.received + d.len();
            if !t.writing {
                assert(t.pending() =~= t.buf.take(r2 as int));
            }
        },
        RelayEvent::Wrote(n) => {
            let sent2 = s.sent + n;
            if !t.writing {
                let rest = s.buf.subrange(sent2 as int, s.received as int);
                assert(t.pending() =~= rest);
            }
        },
    }
}

/// Along any allowed sequence of reads and writes from a new frame relay,
/// whenever the relay asks for a read, no complete frame waits in its buffer:
/// every frame that is complete is written before the relay reads again.
pub proof fn lemma_frame_relay_reads_only_without_frame(s: FrameRelayState, events: Seq<RelayEvent>)
    requires
        s.wf(),
        !s.writing ==> spec_next_frame(s.pending()) is None,
        frame_trace_ok(s, events),
    ensures
        !frame_run(s, events).writing ==> spec_next_frame(frame_run(s, events).pending()) is None,
    decreases events.len(),
{
    if events.len() > 0 {
        let e = events[0];
        lemma_frame_step_reads_only_without_frame(s, e);
        match e {
            RelayEvent::Read(data) => lemma_frame_read_appends(s, data),
            RelayEvent::Wrote(n) => lemma_frame_write_consumes(s, n),
        }
        lemma_frame_relay_reads_only_without_frame(frame_step(s, e), events.drop_first());
    }
}

/// The start state holds no frame, so from a new relay the law above holds
/// along every allowed trace.
pub proof fn lemma_new_frame_relay_reads_only_without_frame(events: Seq<RelayEvent>)
    requires
        frame_trace_ok(frame_relay_start(), events),
    ensures
        !frame_run(frame_relay_start(), events).writing ==> spec_next_frame(
            frame_run(frame_relay_start(), events).pending(),
        ) is None,
{
    assert(frame_relay_start().pending() =~= Seq::<u8>::empty());
    lemma_frame_relay_reads_only_without_frame(frame_relay_start(), events);
}

fn zeroed_buffer() -> (buf: Vec<u8>)
    ensures
        buf@ == Seq::new(RELAY_BUFFER_SIZE as nat, |i: int| 0u8),
{
    let mut buf: Vec<u8> = Vec::new();
    while buf.len() < RELAY_BUFFER_SIZE
        invariant
            buf.len() <= RELAY_BUFFER_SIZE,
            forall|i: int| 0 <= i < buf@.len() ==> buf@[i] == 0u8,
        decreases RELAY_BUFFER_SIZE - buf.len(),
    {
        buf.push(0);
    }
    assert(buf@ =~= Seq::new(RELAY_BUFFER_SIZE as nat, |i: int| 0u8));
    buf
}

/// A relay that forwards whole IP frames.
pub struct FrameRelay {
    buf: Vec<u8>,
    received: usize,
    sent: usize,
    frame_start: usize,
    frame_end: usize,
    writing: bool,
}

impl View for FrameRelay {
    type V = FrameRelayState;

    closed spec fn view(&self) -> FrameRelayState {
        FrameRelayState {
            buf: self.buf@,
            received: self.received as nat,
            sent: self.sent as nat,
            frame_start: self.frame_start as nat,
            frame_end: self.frame_end as nat,
            writing: self.writing,
        }
    }
}

impl FrameRelay {
    /// An empty relay, which reads.
    pub fn new() -> (r: FrameRelay)
        ensures
            r@ == frame_relay_start(),
            r@.wf(),
    {
        let buf = zeroed_buffer();
        FrameRelay { buf, received: 0, sent: 0, frame_start: 0, frame_end: 0, writing: false }
    }

    /// What the relay asks for next.
    pub fn next_action(&self) -> (a: RelayAction)
        requires
            self@.wf(),
        ensures
            a == self@.action(),
    {
        if !self.writing {
            RelayAction::Read { max_len: RELAY_BUFFER_SIZE - self.received }
        } else if self.sent < self.frame_end {
            RelayAction::Write { len: self.frame_end - self.sent }
        } else {
            RelayAction::Stalled
        }
    }

    /// The bytes that the next write is asked to carry.
    pub fn unsent(&self) -> (out: &[u8])
        requires
            self@.wf(),
        ensures
            out@ == self@.unsent(),
    {
        vstd::slice::slice_subrange(self.buf.as_slice(), self.sent, self.frame_end)
    }

    /// Takes the bytes that a read returned.
    pub fn on_read(&mut self, data: &[u8])
        requires
            old(self)@.wf(),
            !old(self)@.writing,
            data@.len() <= RELAY_BUFFER_SIZE - old(self)@.received,
        ensures
            final(self)@ == frame_after_read(old(self)@, data@),
            final(self)@.wf(),
            final(self)@.pending() == old(self)@.pending() + data@,
            !final(self)@.writing ==> spec_next_frame(final(self)@.pending()) is None,
    {
        proof {
            lemma_frame_read_appends(old(self)@, data@);
            lemma_frame_step_reads_only_without_frame(old(self)@, RelayEvent::Read(data@));
        }
        let n = data.len();
        let start = self.received;
        let ghost before = self.buf@;
        for i in 0..n
            invariant
                n == data@.len(),
                start == old(self)@.received,
                start + n <= RELAY_BUFFER_SIZE,
                before == old(self)@.buf,
                before.len() == RELAY_BUFFER_SIZE,
                self.buf@ == before.take(start as int) + data@.take(i as int) + before.skip(
                    start + i,
                ),
                self.received == old(self).received,
                self.sent == old(self).sent,
                self.frame_start == old(self).frame_start,
                self.frame_end == old(self).frame_end,
                self.writing == old(self).writing,
        {
            self.buf.set(start + i, data[i]);
            assert(self.buf@ =~= before.take(start as int) + data@.take(i + 1) + before.skip(
                start + i + 1,
            ));
        }
        assert(data@.take(n as int) =~= data@);
        let received = start + n;
        self.received = received;
        let found = next_frame(vstd::slice::slice_subrange(self.buf.as_slice(), 0, received));
        match found {
            Some(size) => {
                self.sent = 0;
                self.frame_start = 0;
                self.frame_end = size;
                self.writing = true;
            },
            None => {
                self.sent = 0;
                self.frame_start = 0;
                self.frame_end = 0;
                self.writing = false;
            },
        }
    }

    /// Takes the number of bytes that a write of `unsent()` carried.
    pub fn on_written(&mut self, n: usize)
        requires
            old(self)@.wf(),
            old(self)@.writing,
            old(self)@.sent < old(self)@.frame_end,
            n <= old(self)@.frame_end - old(self)@.sent,
        ensures
            final(self)@ == frame_after_write(old(self)@, n as nat),
            final(self)@.wf(),
            final(self)@.pending() == old(self)@.pending().skip(n as int),
            !final(self)@.writing ==> spec_next_frame(final(self)@.pending()) is None,
    {
        proof {
            lemma_frame_write_consumes(old(self)@, n as nat);
            lemma_frame_step_reads_only_without_frame(old(self)@, RelayEvent::Wrote(n as nat));
        }
        let sent = self.sent + n;
        self.sent = sent;
        if sent < self.frame_end {
            return;
        }
        let rest = vstd::slice::slice_subrange(self.buf.as_slice(), sent, self.received);
        match next_frame(rest) {
            Some(size) => {
                self.frame_start = sent;
                self.frame_end = sent + size;
            },
            None => {
                if sent < self.received {
                    self.rotate(sent);
                }
                self.received = self.received - sent;
                self.sent = 0;
                self.frame_start = 0;
                self.frame_end = 0;
                self.writing = false;
            },
        }
    }

    fn rotate(&mut self, k: usize)
        requires
            k <= old(self).buf@.len(),
        ensures
            final(self).buf@ == rotate_left(old(self).buf@, k as nat),
            final(self).received == old(self).received,
            final(self).sent == old(self).sent,
            final(self).frame_start == old(self).frame_start,
            final(self).frame_end == old(self).frame_end,
            final(self).writing == old(self).writing,
    {
        let len = self.buf.len();
        let mut rotated: Vec<u8> = Vec::new();
        for i in k..len
            invariant
                len == self.buf@.len(),
                k <= len,
                rotated@ == self.buf@.subrange(k as int, i as int),
        {
            rotated.push(self.buf[i]);
            assert(self.buf@.subrange(k as int, i + 1) =~= self.buf@.subrange(k as int, i as int).push(self.buf@[i as int]));
        }
        for i in 0..k
            invariant
                len == self.buf@.len(),
                k <= len,
                rotated@ == self.buf@.skip(k as int) + self.buf@.take(i as int),
        {
            rotated.push(self.buf[i]);
            assert(self.buf@.take(i + 1) =~= self.buf@.take(i as int).push(self.buf@[i as int]));
        }
        assert(self.buf@.subrange(k as int, len as int) =~= self.buf@.skip(k as int));
        self.buf = rotated;
    }
}


/// The state of a chunk relay, as a mathematical value.
pub struct ChunkRelayState {
    /// The whole buffer.
    pub buf: Seq<u8>,
    /// Bytes `buf[0..received]` hold what the last read returned.
    pub received: nat,
    /// Bytes `buf[0..sent]` of them have been written.
    pub sent: nat,
    /// Whether the relay writes (or else reads).
    pub writing: bool,
}

impl ChunkRelayState {
    /// The bounds that every state of a chunk relay keeps.
    pub open spec fn wf(self) -> bool {
        &&& self.buf.len() == RELAY_BUFFER_SIZE
        &&& self.sent <= self.received <= RELAY_BUFFER_SIZE
        &&& self.writing ==> self.sent < self.received
        &&& !self.writing ==> self.sent == 0 && self.received == 0
    }

    /// The bytes read and not yet written, in the order they arrived.
    pub open spec fn pending(self) -> Seq<u8> {
        self.buf.subrange(self.sent as int, self.received as int)
    }

    /// The action that the state asks for.
    pub open spec fn action(self) -> RelayAction {
        if self.writing {
            RelayAction::Write { len: (self.received - self.sent) as usize }
        } else {
            RelayAction::Read { max_len: RELAY_BUFFER_SIZE }
        }
    }
}

/// The state after a read returned `data` into the start of the buffer: the
/// relay writes it, unless it is empty.
pub open spec fn chunk_after_read(s: ChunkRelayState, data: Seq<u8>) -> ChunkRelayState {
    ChunkRelayState {
        buf: data + s.buf.skip(data.len() as int),
        received: if data.len() == 0 { 0 } else { data.len() },
        sent: 0,
        writing: data.len() > 0,
    }
}

/// The state after a write carried `n` bytes: the relay reads again once all
/// that the last read returned is written.
pub open spec fn chunk_after_write(s: ChunkRelayState, n: nat) -> ChunkRelayState {
    let sent = s.sent + n;
    if sent < s.received {
        ChunkRelayState { sent, ..s }
    } else {
        ChunkRelayState { sent: 0, received: 0, writing: false, ..s }
    }
}

/// Whether `event` is one that the state allows.
pub open spec fn chunk_event_ok(s: ChunkRelayState, event: RelayEvent) -> bool {
    match event {
        RelayEvent::Read(data) => !s.writing && data.len() <= RELAY_BUFFER_SIZE,
        RelayEvent::Wrote(n) => s.writing && n <= s.received - s.sent,
    }
}

/// The state after one event.
pub open spec fn chunk_step(s: ChunkRelayState, event: RelayEvent) -> ChunkRelayState {
    match event {
        RelayEvent::Read(data) => chunk_after_read(s, data),
        RelayEvent::Wrote(n) => chunk_after_write(s, n),
    }
}

/// The bytes that one event moved out of the relay.
pub open spec fn chunk_step_output(s: ChunkRelayState, event: RelayEvent) -> Seq<u8> {
    match event {
        RelayEvent::Read(_) => Seq::empty(),
        RelayEvent::Wrote(n) => s.pending().take(n as int),
    }
}

/// Whether every event of `events` is allowed in the state it meets.
pub open spec fn chunk_trace_ok(s: ChunkRelayState, events: Seq<RelayEvent>) -> bool
    decreases events.len(),
{
    events.len() == 0 || (chunk_event_ok(s, events[0]) && chunk_trace_ok(
        chunk_step(s, events[0]),
        events.drop_first(),
    ))
}

/// The state after all of `events`.
pub open spec fn chunk_run(s: ChunkRelayState, events: Seq<RelayEvent>) -> ChunkRelayState
    decreases events.len(),
{
    if events.len() == 0 {
        s
    } else {
        chunk_run(chunk_step(s, events[0]), events.drop_first())
    }
}

/// The bytes that `events` moved out of the relay, in order.
pub open spec fn chunk_output(s: ChunkRelayState, events: Seq<RelayEvent>) -> Seq<u8>
    decreases events.len(),
{
    if events.len() == 0 {
        Seq::empty()
    } else {
        chunk_step_output(s, events[0]) + chunk_output(chunk_step(s, events[0]), events.drop_first())
    }
}

/// No byte is lost, duplicated or reordered by a chunk relay either: along any
/// sequence of allowed reads and writes, the bytes written followed by those
/// still waiting are the bytes that waited before followed by those read.
pub proof fn lemma_chunk_relay_forwards_in_order(s: ChunkRelayState, events: Seq<RelayEvent>)
    requires
        s.wf(),
        chunk_trace_ok(s, events),
    ensures
        chunk_run(s, events).wf(),
        chunk_output(s, events) + chunk_run(s, events).pending() =~= s.pending() + input_of(events),
    decreases events.len(),
{
    if events.len() > 0 {
        let e = events[0];
        let t = chunk_step(s, e);
        match e {
            RelayEvent::Read(data) => {
                assert(t.pending() =~= data);
                assert(s.pending() =~= Seq::<u8>::empty());
            },
            RelayEvent::Wrote(n) => {
                assert(t.pending() =~= s.pending().skip(n as int));
                assert(s.pending() =~= s.pending().take(n as int) + s.pending().skip(n as int));
            },
        }
        lemma_chunk_relay_forwards_in_order(t, events.drop_first());
        match e {
            RelayEvent::Read(data) => {
                assert(s.pending() + input_of(events) =~= t.pending() + input_of(events.drop_first()));
            },
            RelayEvent::Wrote(n) => {
                assert(s.pending() + input_of(events) =~= chunk_step_output(s, e) + (t.pending()
                    + input_of(events.drop_first())));
            },
        }
    }
}

/// A relay that forwards what each read returned before it reads again.
pub struct ChunkRelay {
    buf: Vec<u8>,
    received: usize,
    sent: usize,
    writing: bool,
}

impl View for ChunkRelay {
    type V = ChunkRelayState;

    closed spec fn view(&self) -> ChunkRelayState {
        ChunkRelayState {
            buf: self.buf@,
            received: self.received as nat,
            sent: self.sent as nat,
            writing: self.writing,
        }
    }
}

impl ChunkRelay {
    /// An empty relay, which reads.
    pub fn new() -> (r: ChunkRelay)
        ensures
            r@ == (ChunkRelayState {
                buf: Seq::new(RELAY_BUFFER_SIZE as nat, |i: int| 0u8),
                received: 0,
                sent: 0,
                writing: false,
            }),
            r@.wf(),
    {
        let buf = zeroed_buffer();
        ChunkRelay { buf, received: 0, sent: 0, writing: false }
    }

    /// What the relay asks for next.
    pub fn next_action(&self) -> (a: RelayAction)
        requires
            self@.wf(),
        ensures
            a == self@.action(),
    {
        if self.writing {
            RelayAction::Write { len: self.received - self.sent }
        } else {
            RelayAction::Read { max_len: RELAY_BUFFER_SIZE }
        }
    }

    /// The bytes that the next write is asked to carry.
    pub fn unsent(&self) -> (out: &[u8])
        requires
            self@.wf(),
        ensures
            out@ == self@.pending(),
    {
        vstd::slice::slice_subrange(self.buf.as_slice(), self.sent, self.received)
    }

    /// Takes the bytes that a read returned.
    pub fn on_read(&mut self, data: &[u8])
        requires
            old(self)@.wf(),
            !old(self)@.writing,
            data@.len() <= RELAY_BUFFER_SIZE,
        ensures
            final(self)@ == chunk_after_read(old(self)@, data@),
            final(self)@.wf(),
    {
        let n = data.len();
        let ghost before = self.buf@;
        for i in 0..n
            invariant
                n == data@.len(),
                n <= RELAY_BUFFER_SIZE,
                before == old(self)@.buf,
                before.len() == RELAY_BUFFER_SIZE,
                self.buf@ == data@.take(i as int) + before.skip(i as int),
                self.received == old(self).received,
                self.sent == old(self).sent,
                self.writing == old(self).writing,
        {
            self.buf.set(i, data[i]);
            assert(self.buf@ =~= data@.take(i + 1) + before.skip(i + 1));
        }
        assert(data@.take(n as int) =~= data@);
        self.received = n;
        self.sent = 0;
        self.writing = n > 0;
    }

    /// Takes the number of bytes that a write of `unsent()` carried.
    pub fn on_written(&mut self, n: usize)
        requires
            old(self)@.wf(),
            old(self)@.writing,
            n <= old(self)@.received - old(self)@.sent,
        ensures
            final(self)@ == chunk_after_write(old(self)@, n as nat),
            final(self)@.wf(),
    {
        let sent = self.sent + n;
        if sent < self.received {
            self.sent = sent;
        } else {
            self.sent = 0;
            self.received = 0;
            self.writing = false;
        }
    }
}

} // verus!
