//! One transfer over its data connection: how many bytes have come in, how the
//! transfer ends, and what its progress channel is told.
//!
//! A session begins when a bot has named the address to fetch the file from. It
//! is fed what happens on the data connection, one event at a time, and answers
//! each event with what goes out on its progress channel. Once it has ended it
//! stays as it is and says nothing more.

use vstd::prelude::*;

verus! {

/// How many bytes are read from a data connection at a time. Progress is
/// reported after each such chunk.
pub const CHUNK_BYTES: usize = 16384;

/// Why a transfer ended without its file.
#[derive(Debug, Clone, Copy, PartialEq, Eq, Structural)]
pub enum Failure {
    /// The bot did not name an address in time, or the control connection
    /// ended before it did.
    RequestTimeout,
    /// The data connection could not be opened.
    DataConnectFailed,
    /// The data connection brought fewer bytes than advertised, or more.
    SizeMismatch,
    /// The bytes that came in could not be stored.
    IoWriteFailed,
    /// An earlier request of the same batch is stored at the same path.
    Collision,
    /// The user asked to stop.
    Cancelled,
}

/// How a transfer ended.
#[derive(Debug, Clone, Copy, PartialEq, Eq, Structural)]
pub enum Outcome {
    /// Every advertised byte came in and was stored.
    Success,
    /// The transfer ended without its file.
    Failed(Failure),
}

/// What happens on a data connection.
#[derive(Debug, Clone, Copy, PartialEq, Eq, Structural)]
pub enum SessionEvent {
    /// The data connection could not be opened.
    ConnectFailed,
    /// So many bytes came in and were stored.
    Chunk(u64),
    /// Bytes came in and could not be stored.
    WriteFailed,
    /// The other side closed the data connection.
    Closed,
    /// The user asked to stop.
    Cancelled,
}

/// What a session's progress channel is told.
#[derive(Debug, Clone, Copy, PartialEq, Eq, Structural)]
pub enum ProgressEvent {
    /// So many bytes have come in since the session began.
    Bytes(u64),
    /// The session has ended. Nothing follows.
    End,
}

/// The state of one transfer.
#[derive(Debug, PartialEq, Eq)]
pub struct TransferSession {
    address: u32,
    port: u16,
    expected: u64,
    received: u64,
    outcome: Option<Outcome>,
}

/// What a `TransferSession` holds.
pub struct SessionView {
    /// The IPv4 address of the data connection, most significant octet first.
    pub address: u32,
    /// The port of the data connection.
    pub port: u16,
    /// The advertised size of the file, in bytes.
    pub expected: nat,
    /// The bytes that have come in so far.
    pub received: nat,
    /// How the transfer ended, once it has.
    pub outcome: Option<Outcome>,
}

/// A session and what it has told its progress channel.
pub struct SessionRun {
    pub state: SessionView,
    pub emitted: Seq<ProgressEvent>,
}

impl SessionView {
    /// What holds of every session: no more bytes have come in than were
    /// advertised, and after a success exactly as many.
    pub open spec fn wf(self) -> bool {
        &&& self.received <= self.expected <= u64::MAX
        &&& self.outcome == Some(Outcome::Success) ==> self.received == self.expected
    }

    /// Whether the session has ended.
    pub open spec fn ended(self) -> bool {
        self.outcome is Some
    }

    /// The session as it ends with `outcome`.
    pub open spec fn end(self, outcome: Outcome) -> SessionRun {
        SessionRun {
            state: SessionView { outcome: Some(outcome), ..self },
            emitted: seq![ProgressEvent::End],
        }
    }

    /// The session after `event`, and what its progress channel is told.
    ///
    /// A session that has ended ignores every event. A chunk is counted and
    /// reported, unless it is empty; one that would bring more bytes than
    /// advertised ends the session instead. When the connection closes, the
    /// session ends in success if every advertised byte has come in, and as a
    /// size mismatch if not.
    pub open spec fn step(self, event: SessionEvent) -> SessionRun {
        if self.ended() {
            SessionRun { state: self, emitted: Seq::empty() }
        } else {
            match event {
                SessionEvent::ConnectFailed => self.end(Outcome::Failed(Failure::DataConnectFailed)),
                SessionEvent::Chunk(n) => if n == 0 {
                    SessionRun { state: self, emitted: Seq::empty() }
                } else if self.received + n > self.expected {
                    self.end(Outcome::Failed(Failure::SizeMismatch))
                } else {
                    SessionRun {
                        state: SessionView { received: self.received + n as nat, ..self },
                        emitted: seq![ProgressEvent::Bytes((self.received + n) as u64)],
                    }
                },
                SessionEvent::WriteFailed => self.end(Outcome::Failed(Failure::IoWriteFailed)),
                SessionEvent::Closed => if self.received == self.expected {
                    self.end(Outcome::Success)
                } else {
                    self.end(Outcome::Failed(Failure::SizeMismatch))
                },
                SessionEvent::Cancelled => self.end(Outcome::Failed(Failure::Cancelled)),
            }
        }
    }

    /// The session after the events of `events`, one after the other, and all
    /// that its progress channel is told on the way.
    pub open spec fn run(self, events: Seq<SessionEvent>) -> SessionRun
        decreases events.len(),
    {
        if events.len() == 0 {
            SessionRun { state: self, emitted: Seq::empty() }
        } else {
            let before = self.run(events.drop_last());
            let last = before.state.step(events.last());
            SessionRun { state: last.state, emitted: before.emitted + last.emitted }
        }
    }
}

/// A session that begins: nothing has come in, and it has not ended.
pub open spec fn fresh(address: u32, port: u16, expected: u64) -> SessionView {
    SessionView { address, port, expected: expected as nat, received: 0, outcome: None }
}

/// Whether a progress channel was told `log` in good order: the byte counts
/// are positive and never fall, and nothing follows the end.
pub open spec fn in_order(log: Seq<ProgressEvent>) -> bool {
    &&& forall|i: int| 0 <= i < log.len() - 1 ==> #[trigger] log[i] is Bytes
    &&& forall|i: int| 0 <= i < log.len() ==> (#[trigger] log[i] matches ProgressEvent::Bytes(n)
        ==> n > 0)
    &&& forall|i: int, j: int|
        0 <= i <= j < log.len() ==> (#[trigger] log[i] matches ProgressEvent::Bytes(a) ==> (
        #[trigger] log[j] matches ProgressEvent::Bytes(b) ==> a <= b))
}

/// The sum of the sizes of `chunks`.
pub open spec fn total(chunks: Seq<u64>) -> nat
    decreases chunks.len(),
{
    if chunks.len() == 0 {
        0
    } else {
        total(chunks.drop_last()) + chunks.last() as nat
    }
}

/// The events of a data connection that brings `chunks`, one after the other.
pub open spec fn chunk_events(chunks: Seq<u64>) -> Seq<SessionEvent> {
    Seq::new(chunks.len(), |i: int| SessionEvent::Chunk(chunks[i]))
}

/// The number that stands for `event` on a channel of signed numbers: the byte
/// count, or the largest number where the count is larger still; 0 for the
/// end.
pub open spec fn channel_value(event: ProgressEvent) -> i64 {
    match event {
        ProgressEvent::Bytes(n) => if n <= i64::MAX { n as i64 } else { i64::MAX },
        ProgressEvent::End => 0,
    }
}

/// Whatever happens to a session, it never holds more bytes than advertised,
/// and holds exactly as many once it has succeeded.
pub proof fn lemma_run_keeps_wf(s: SessionView, events: Seq<SessionEvent>)
    requires
        s.wf(),
    ensures
        s.run(events).state.wf(),
        s.run(events).state.expected == s.expected,
    decreases events.len(),
{
    if events.len() > 0 {
        lemma_run_keeps_wf(s, events.drop_last());
    }
}

/// A session that ends in success has received exactly the advertised number
/// of bytes.
pub proof fn lemma_success_is_exact(s: SessionView, events: Seq<SessionEvent>)
    requires
        s.wf(),
        s.run(events).state.outcome == Some(Outcome::Success),
    ensures
        s.run(events).state.received == s.expected,
{
    lemma_run_keeps_wf(s, events);
}

/// What a session holds after a run of chunks: their sum, while that is no
/// more than advertised; else it has ended as a size mismatch.
proof fn lemma_chunks(expected: u64, address: u32, port: u16, chunks: Seq<u64>)
    ensures
        ({
            let after = fresh(address, port, expected).run(chunk_events(chunks)).state;
            if total(chunks) <= expected {
                after == (SessionView { received: total(chunks), ..fresh(address, port, expected) })
            } else {
                after.outcome == Some(Outcome::Failed(Failure::SizeMismatch))
            }
        }),
    decreases chunks.len(),
{
    if chunks.len() > 0 {
        lemma_chunks(expected, address, port, chunks.drop_last());
        assert(chunk_events(chunks).drop_last() == chunk_events(chunks.drop_last()));
    }
}

/// A data connection that brings some chunks and closes ends the session in
/// success if the chunks add up to the advertised size, and as a size mismatch
/// if they add up to less or to more.
pub proof fn lemma_closed_stream(expected: u64, address: u32, port: u16, chunks: Seq<u64>)
    ensures
        fresh(address, port, expected).run(
            chunk_events(chunks).push(SessionEvent::Closed),
        ).state.outcome == Some(
            if total(chunks) == expected {
                Outcome::Success
            } else {
                Outcome::Failed(Failure::SizeMismatch)
            },
        ),
{
    let events = chunk_events(chunks).push(SessionEvent::Closed);
    lemma_chunks(expected, address, port, chunks);
    assert(events.drop_last() == chunk_events(chunks));
}

/// What a progress channel has been told at any time: positive byte counts
/// that never fall and never pass what the session holds, and the end as the
/// last event if and only if the session has ended.
pub proof fn lemma_progress_in_order(address: u32, port: u16, expected: u64, events: Seq<SessionEvent>)
    ensures
        ({
            let r = fresh(address, port, expected).run(events);
            &&& in_order(r.emitted)
            &&& r.state.ended() <==> r.emitted.len() > 0 && r.emitted.last() is End
            &&& forall|i: int|
                0 <= i < r.emitted.len() ==> (#[trigger] r.emitted[i] matches ProgressEvent::Bytes(
                    n,
                ) ==> n <= r.state.received)
        }),
    decreases events.len(),
{
    let s = fresh(address, port, expected);
    if events.len() > 0 {
        lemma_progress_in_order(address, port, expected, events.drop_last());
        lemma_run_keeps_wf(s, events.drop_last());
        let before = s.run(events.drop_last());
        let last = before.state.step(events.last());
        let r = s.run(events);
        assert(r.emitted == before.emitted + last.emitted);
        assert forall|i: int| 0 <= i < r.emitted.len() - 1 implies #[trigger] r.emitted[i] is Bytes by {
            if i < before.emitted.len() {
                assert(r.emitted[i] == before.emitted[i]);
            }
        }
        assert forall|i: int| 0 <= i < r.emitted.len() implies (#[trigger] r.emitted[i] matches ProgressEvent::Bytes(
            n,
        ) ==> n > 0 && n <= r.state.received) by {
            if i < before.emitted.len() {
                assert(r.emitted[i] == before.emitted[i]);
            }
        }
        assert forall|i: int, j: int| 0 <= i <= j < r.emitted.len() implies (
        #[trigger] r.emitted[i] matches ProgressEvent::Bytes(a) ==> (
        #[trigger] r.emitted[j] matches ProgressEvent::Bytes(b) ==> a <= b)) by {
            if i < before.emitted.len() {
                assert(r.emitted[i] == before.emitted[i]);
            }
            if j < before.emitted.len() {
                assert(r.emitted[j] == before.emitted[j]);
            }
        }
    }
}

/// On a channel of signed numbers the end is the one event that is not
/// positive, and byte counts keep their order.
pub proof fn lemma_channel_values(a: ProgressEvent, b: ProgressEvent)
    requires
        a matches ProgressEvent::Bytes(n) ==> n > 0,
    ensures
        channel_value(a) <= 0 <==> a is End,
        a matches ProgressEvent::Bytes(m) ==> (b matches ProgressEvent::Bytes(n) ==> (m <= n
            ==> channel_value(a) <= channel_value(b))),
{
}

impl View for TransferSession {
    type V = SessionView;

    closed spec fn view(&self) -> SessionView {
        SessionView {
            address: self.address,
            port: self.port,
            expected: self.expected as nat,
            received: self.received as nat,
            outcome: self.outcome,
        }
    }
}

impl TransferSession {
    #[verifier::type_invariant]
    spec fn inv(&self) -> bool {
        self@.wf()
    }

    /// A session for a file of `expected` bytes that is fetched from `address`
    /// and `port`.
    pub fn open(address: u32, port: u16, expected: u64) -> (r: TransferSession)
        ensures
            r@ == fresh(address, port, expected),
    {
        TransferSession { address, port, expected, received: 0, outcome: None }
    }

    /// The IPv4 address of the data connection, most significant octet first.
    pub fn address(&self) -> (r: u32)
        ensures
            r == self@.address,
    {
        self.address
    }

    /// The port of the data connection.
    pub fn port(&self) -> (r: u16)
        ensures
            r == self@.port,
    {
        self.port
    }

    /// The advertised size of the file, in bytes.
    pub fn expected(&self) -> (r: u64)
        ensures
            r == self@.expected,
    {
        self.expected
    }

    /// The bytes that have come in so far.
    pub fn received(&self) -> (r: u64)
        ensures
            r == self@.received,
            self@.wf(),
    {
        proof {
            use_type_invariant(self);
        }
        self.received
    }

    /// How the transfer ended, once it has.
    pub fn outcome(&self) -> (r: Option<Outcome>)
        ensures
            r == self@.outcome,
            self@.wf(),
    {
        proof {
            use_type_invariant(self);
        }
        self.outcome
    }

    /// Takes one event of the data connection, and gives what the progress
    /// channel is to be told.
    pub fn step(&mut self, event: SessionEvent) -> (emitted: Vec<ProgressEvent>)
        ensures
            final(self)@ == old(self)@.step(event).state,
            emitted@ == old(self)@.step(event).emitted,
            old(self)@.wf(),
            final(self)@.wf(),
    {
        proof {
            use_type_invariant(&*self);
        }
        let mut emitted: Vec<ProgressEvent> = Vec::new();
        if self.outcome.is_some() {
            return emitted;
        }
        let outcome: Outcome = match event {
            SessionEvent::ConnectFailed => Outcome::Failed(Failure::DataConnectFailed),
            SessionEvent::Chunk(n) => {
                if n == 0 {
                    return emitted;
                }
                if n > self.expected - self.received {
                    Outcome::Failed(Failure::SizeMismatch)
                } else {
                    self.received = self.received + n;
                    emitted.push(ProgressEvent::Bytes(self.received));
                    return emitted;
                }
            },
            SessionEvent::WriteFailed => Outcome::Failed(Failure::IoWriteFailed),
            SessionEvent::Closed => {
                if self.received == self.expected {
                    Outcome::Success
                } else {
                    Outcome::Failed(Failure::SizeMismatch)
                }
            },
            SessionEvent::Cancelled => Outcome::Failed(Failure::Cancelled),
        };
        self.outcome = Some(outcome);
        emitted.push(ProgressEvent::End);
        emitted
    }
}

impl Clone for TransferSession {
    fn clone(&self) -> (r: TransferSession)
        ensures
            r@ == self@,
    {
        proof {
            use_type_invariant(self);
        }
        TransferSession {
            address: self.address,
            port: self.port,
            expected: self.expected,
            received: self.received,
            outcome: self.outcome,
        }
    }
}

impl ProgressEvent {
    /// The number that stands for the event on a channel of signed numbers.
    pub fn to_channel(&self) -> (r: i64)
        ensures
            r == channel_value(*self),
    {
        match self {
            ProgressEvent::Bytes(n) => {
                if *n <= 0x7fff_ffff_ffff_ffff {
                    *n as i64
                } else {
                    0x7fff_ffff_ffff_ffff
                }
            },
            ProgressEvent::End => 0,
        }
    }
}

} // verus!
