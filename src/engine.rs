//! The verification engine: one run, from opening the device to its report,
//! as a state machine that the caller drives with transport events.
use vstd::prelude::*;

verus! {

/// A received byte that differs from the reference byte at its position.
#[derive(Clone, Copy, Debug, PartialEq, Eq, Structural)]
pub struct Mismatch {
    pub position: usize,
    pub received: u8,
    pub expected: u8,
}

/// The mismatches found when the bytes `received` (all inbound bytes of a
/// run, in arrival order) are aligned with `payload` from its start; bytes
/// past the end of the payload have no counterpart and are not compared.
pub open spec fn mismatches_of(payload: Seq<u8>, received: Seq<u8>) -> Seq<Mismatch>
    decreases received.len(),
{
    if received.len() == 0 {
        Seq::empty()
    } else {
        let k = (received.len() - 1) as int;
        let before = mismatches_of(payload, received.drop_last());
        if k < payload.len() && received[k] != payload[k] {
            before.push(Mismatch { position: k as usize, received: received[k], expected: payload[k] })
        } else {
            before
        }
    }
}

/// How many inbound bytes had a reference byte to be compared with.
pub open spec fn compared_of(payload: Seq<u8>, received: Seq<u8>) -> nat {
    if received.len() <= payload.len() {
        received.len()
    } else {
        payload.len()
    }
}

/// There are never more mismatches than compared bytes.
pub proof fn lemma_mismatches_bounded(payload: Seq<u8>, received: Seq<u8>)
    ensures
        mismatches_of(payload, received).len() <= compared_of(payload, received),
    decreases received.len(),
{
    if received.len() > 0 {
        lemma_mismatches_bounded(payload, received.drop_last());
    }
}

/// Appending one byte extends the mismatches by at most that byte's own.
proof fn lemma_mismatches_push(payload: Seq<u8>, received: Seq<u8>, b: u8)
    ensures
        mismatches_of(payload, received.push(b)) == (if received.len() < payload.len()
            && b != payload[received.len() as int] {
            mismatches_of(payload, received).push(
                Mismatch {
                    position: received.len() as usize,
                    received: b,
                    expected: payload[received.len() as int],
                },
            )
        } else {
            mismatches_of(payload, received)
        }),
{
    assert(received.push(b).drop_last() =~= received);
}


/// Faithful echo: when every inbound byte that has a reference counterpart
/// equals it, no mismatch is found, and the number of compared bytes is the
/// number of inbound bytes, capped at the payload length.
pub proof fn lemma_faithful_echo(payload: Seq<u8>, received: Seq<u8>)
    requires
        forall|i: int|
            0 <= i < received.len() && i < payload.len() ==> #[trigger] received[i] == payload[i],
    ensures
        mismatches_of(payload, received).len() == 0,
        compared_of(payload, received) == if received.len() <= payload.len() {
            received.len()
        } else {
            payload.len()
        },
    decreases received.len(),
{
    if received.len() > 0 {
        let prefix = received.drop_last();
        assert forall|i: int| 0 <= i < prefix.len() && i < payload.len() implies #[trigger] prefix[i]
            == payload[i] by {
            assert(prefix[i] == received[i]);
        }
        lemma_faithful_echo(payload, prefix);
    }
}

/// Surplus bytes: once at least as many bytes came in as were sent, the
/// compared count is exactly the payload length, and extra bytes change
/// neither the count nor the mismatches.
pub proof fn lemma_surplus_capped(payload: Seq<u8>, received: Seq<u8>, extra: Seq<u8>)
    requires
        received.len() >= payload.len(),
    ensures
        compared_of(payload, received) == payload.len(),
        compared_of(payload, received + extra) == payload.len(),
        mismatches_of(payload, received + extra) == mismatches_of(payload, received),
    decreases extra.len(),
{
    if extra.len() > 0 {
        let shorter = extra.drop_last();
        lemma_surplus_capped(payload, received, shorter);
        assert((received + extra).drop_last() =~= received + shorter);
    } else {
        assert(received + extra =~= received);
    }
}

/// A fatal failure that ends a run.
#[derive(Clone, Copy, Debug, PartialEq, Eq, Structural)]
pub enum RunError {
    /// The device could not be opened or configured.
    DeviceOpen,
    /// The baud rate text is not an unsigned integer.
    ArgumentParse,
    /// The payload could not be written in full.
    TransportWrite,
    /// A read from the transport failed.
    TransportRead,
}

/// How a run ended.
#[derive(Clone, Copy, Debug, PartialEq, Eq, Structural)]
pub enum Outcome {
    /// The transport signalled the end of its stream.
    Completed,
    /// The deadline elapsed before the stream ended.
    TimedOut,
    /// A fatal error ended the run.
    Failed(RunError),
}

/// Where a run stands.
#[derive(Clone, Copy, Debug, PartialEq, Eq, Structural)]
pub enum Phase {
    /// The device is not open yet.
    Idle,
    /// The payload is being written.
    Sending,
    /// Inbound chunks are being compared.
    Receiving,
    /// The run is over; it can only be reported.
    Done(Outcome),
}

/// What the transport side reports to the engine.
pub enum Event {
    /// The device was opened and configured.
    Opened,
    /// The device could not be opened or configured.
    OpenFailed,
    /// The whole payload was handed to the transport.
    Sent,
    /// Writing the payload failed.
    SendFailed,
    /// One inbound delivery, consumed as it is.
    Chunk(Vec<u8>),
    /// No more inbound chunks will ever arrive.
    EndOfStream,
    /// A read from the transport failed.
    ReadFailed,
    /// The run's deadline elapsed while waiting for a chunk.
    DeadlineElapsed,
}

/// The summary of a run.
#[derive(Clone, Copy, Debug, PartialEq, Eq, Structural)]
pub struct Report {
    pub bytes_compared: usize,
    pub mismatch_count: usize,
    pub payload_len: usize,
    pub outcome: Outcome,
}

/// What the engine asks of the transport side after an event.
pub enum Action {
    /// Write these bytes, then report `Sent` or `SendFailed`.
    Send(Vec<u8>),
    /// Report these mismatches, then wait for the next event.
    Await(Vec<Mismatch>),
    /// The run is over.
    Finish(Report),
}

/// The abstract state of a run: the reference payload, every inbound byte
/// consumed so far, and the phase.
pub struct SessionView {
    pub payload: Seq<u8>,
    pub received: Seq<u8>,
    pub phase: Phase,
}

impl SessionView {
    /// The state after `event`. Events that do not belong to the current
    /// phase leave the state as it is; a finished run never changes.
    pub open spec fn next(self, event: Event) -> SessionView {
        match self.phase {
            Phase::Idle => match event {
                Event::Opened => SessionView { phase: Phase::Sending, ..self },
                Event::OpenFailed => SessionView {
                    phase: Phase::Done(Outcome::Failed(RunError::DeviceOpen)),
                    ..self
                },
                _ => self,
            },
            Phase::Sending => match event {
                Event::Sent => SessionView { phase: Phase::Receiving, ..self },
                Event::SendFailed => SessionView {
                    phase: Phase::Done(Outcome::Failed(RunError::TransportWrite)),
                    ..self
                },
                _ => self,
            },
            Phase::Receiving => match event {
                Event::Chunk(c) => SessionView { received: self.received + c@, ..self },
                Event::EndOfStream => SessionView { phase: Phase::Done(Outcome::Completed), ..self },
                Event::DeadlineElapsed => SessionView {
                    phase: Phase::Done(Outcome::TimedOut),
                    ..self
                },
                Event::ReadFailed => SessionView {
                    phase: Phase::Done(Outcome::Failed(RunError::TransportRead)),
                    ..self
                },
                _ => self,
            },
            Phase::Done(_) => self,
        }
    }

    /// The report of this state, had the run ended with `outcome`.
    pub open spec fn report(self, outcome: Outcome) -> Report {
        Report {
            bytes_compared: compared_of(self.payload, self.received) as usize,
            mismatch_count: mismatches_of(self.payload, self.received).len() as usize,
            payload_len: self.payload.len() as usize,
            outcome,
        }
    }

    /// `action` is what the move from `self` to `next` asks for: the report
    /// once the run is over, the payload to send once the device is open,
    /// and otherwise the mismatches that the new inbound bytes brought.
    pub open spec fn action_fits(self, next: SessionView, action: Action) -> bool {
        match action {
            Action::Finish(r) => next.phase == Phase::Done(r.outcome) && r == next.report(
                r.outcome,
            ),
            Action::Send(bytes) => self.phase == Phase::Idle && next.phase == Phase::Sending
                && bytes@ == self.payload,
            Action::Await(found) => {
                &&& !(next.phase is Done)
                &&& !(self.phase == Phase::Idle && next.phase == Phase::Sending)
                &&& mismatches_of(self.payload, self.received) + found@ == mismatches_of(
                    next.payload,
                    next.received,
                )
            },
        }
    }
}

/// Silent transport: a run that reaches its deadline without a single
/// inbound byte reports a timeout with nothing compared and no mismatch.
pub proof fn lemma_silent_run_times_out(s: SessionView)
    requires
        s.phase == Phase::Receiving,
        s.received.len() == 0,
    ensures
        s.next(Event::DeadlineElapsed).phase == Phase::Done(Outcome::TimedOut),
        s.next(Event::DeadlineElapsed).report(Outcome::TimedOut).bytes_compared == 0,
        s.next(Event::DeadlineElapsed).report(Outcome::TimedOut).mismatch_count == 0,
{
}

/// The error rate `100 * mismatches / payload_len`, in thousandths of a
/// percent, rounded to the nearest (halves up); zero for an empty payload.
pub open spec fn milli_percent(mismatches: nat, payload_len: nat) -> nat {
    if payload_len == 0 {
        0
    } else {
        (200000 * mismatches + payload_len) / (2 * payload_len)
    }
}

impl Report {
    /// The mismatch percentage of this report in thousandths of a percent.
    pub fn error_milli_percent(&self) -> (r: u128)
        ensures
            r == milli_percent(self.mismatch_count as nat, self.payload_len as nat),
    {
        if self.payload_len == 0 {
            0
        } else {
            let m = self.mismatch_count as u128;
            let n = self.payload_len as u128;
            assert(200000 * m <= 200000 * 0xffff_ffff_ffff_ffffu128) by (nonlinear_arith)
                requires
                    m <= 0xffff_ffff_ffff_ffffu128,
            ;
            (200000 * m + n) / (2 * n)
        }
    }
}

/// One run: the reference payload, the expectation cursor, the statistics
/// and the phase.
pub struct Session {
    payload: Vec<u8>,
    cursor: usize,
    mismatch_count: usize,
    phase: Phase,
    received: Ghost<Seq<u8>>,
}

impl View for Session {
    type V = SessionView;

    closed spec fn view(&self) -> SessionView {
        SessionView { payload: self.payload@, received: self.received@, phase: self.phase }
    }
}

impl Session {
    /// The cursor and the mismatch count agree with the inbound bytes.
    pub closed spec fn wf(&self) -> bool {
        &&& self.cursor == compared_of(self.payload@, self.received@)
        &&& self.mismatch_count == mismatches_of(self.payload@, self.received@).len()
    }

    /// A run that will send `payload` and check the echo against it.
    pub fn new(payload: Vec<u8>) -> (s: Session)
        ensures
            s.wf(),
            s@.payload == payload@,
            s@.received == Seq::<u8>::empty(),
            s@.phase == Phase::Idle,
    {
        Session {
            payload,
            cursor: 0,
            mismatch_count: 0,
            phase: Phase::Idle,
            received: Ghost(Seq::empty()),
        }
    }

    /// The reference payload.
    pub fn payload(&self) -> (r: &Vec<u8>)
        ensures
            r@ == self@.payload,
    {
        &self.payload
    }

    /// The phase the run is in.
    pub fn phase(&self) -> (r: Phase)
        ensures
            r == self@.phase,
    {
        self.phase
    }

    /// The statistics so far, as they would be reported with `outcome`.
    pub fn report(&self, outcome: Outcome) -> (r: Report)
        requires
            self.wf(),
        ensures
            r == self@.report(outcome),
    {
        proof {
            lemma_mismatches_bounded(self.payload@, self.received@);
        }
        Report {
            bytes_compared: self.cursor,
            mismatch_count: self.mismatch_count,
            payload_len: self.payload.len(),
            outcome,
        }
    }

    /// Moves the run on by one transport event and says what to do next.
    pub fn on_event(&mut self, event: Event) -> (action: Action)
        requires
            old(self).wf(),
        ensures
            final(self).wf(),
            final(self)@ == old(self)@.next(event),
            old(self)@.action_fits(final(self)@, action),
    {
        let ghost ev = event;
        let ghost before = self@;
        let action = match self.phase {
            Phase::Idle => match event {
                Event::Opened => {
                    self.phase = Phase::Sending;
                    Action::Send(self.payload.clone())
                },
                Event::OpenFailed => self.finish(Outcome::Failed(RunError::DeviceOpen)),
                _ => Action::Await(Vec::new()),
            },
            Phase::Sending => match event {
                Event::Sent => {
                    self.phase = Phase::Receiving;
                    Action::Await(Vec::new())
                },
                Event::SendFailed => self.finish(Outcome::Failed(RunError::TransportWrite)),
                _ => Action::Await(Vec::new()),
            },
            Phase::Receiving => match event {
                Event::Chunk(c) => Action::Await(self.consume(&c)),
                Event::EndOfStream => self.finish(Outcome::Completed),
                Event::DeadlineElapsed => self.finish(Outcome::TimedOut),
                Event::ReadFailed => self.finish(Outcome::Failed(RunError::TransportRead)),
                _ => Action::Await(Vec::new()),
            },
            Phase::Done(o) => Action::Finish(self.report(o)),
        };
        proof {
            assert(mismatches_of(before.payload, before.received) + Seq::<Mismatch>::empty()
                =~= mismatches_of(before.payload, before.received));
        }
        action
    }

    /// Ends the run with `outcome` and reports it.
    fn finish(&mut self, outcome: Outcome) -> (action: Action)
        requires
            old(self).wf(),
        ensures
            final(self).wf(),
            final(self)@ == (SessionView { phase: Phase::Done(outcome), ..old(self)@ }),
            action == Action::Finish(final(self)@.report(outcome)),
    {
        self.phase = Phase::Done(outcome);
        Action::Finish(self.report(outcome))
    }

    /// Compares one inbound chunk, byte by byte, with the reference bytes at
    /// the cursor, and returns the mismatches in it. Bytes beyond the end of
    /// the payload are dropped.
    pub fn consume(&mut self, chunk: &Vec<u8>) -> (found: Vec<Mismatch>)
        requires
            old(self).wf(),
        ensures
            final(self).wf(),
            final(self)@ == (SessionView { received: old(self)@.received + chunk@, ..old(self)@ }),
            mismatches_of(old(self)@.payload, old(self)@.received) + found@ == mismatches_of(
                final(self)@.payload,
                final(self)@.received,
            ),
    {
        let ghost start = self.received@;
        let mut found: Vec<Mismatch> = Vec::new();
        let mut i: usize = 0;
        while i < chunk.len()
            invariant
                self.wf(),
                self.payload@ == old(self)@.payload,
                self.phase == old(self)@.phase,
                i <= chunk.len(),
                self.received@ == start + chunk@.subrange(0, i as int),
                mismatches_of(self.payload@, start) + found@ == mismatches_of(
                    self.payload@,
                    self.received@,
                ),
            decreases chunk.len() - i,
        {
            let b = chunk[i];
            proof {
                lemma_mismatches_push(self.payload@, self.received@, b);
                lemma_mismatches_bounded(self.payload@, self.received@);
                assert(start + chunk@.subrange(0, i + 1) =~= self.received@.push(b));
            }
            if self.cursor < self.payload.len() {
                let expected = self.payload[self.cursor];
                if b != expected {
                    found.push(Mismatch { position: self.cursor, received: b, expected });
                    self.mismatch_count = self.mismatch_count + 1;
                }
                self.cursor = self.cursor + 1;
            }
            self.received = Ghost(self.received@.push(b));
            i = i + 1;
        }
        proof {
            assert(chunk@.subrange(0, chunk@.len() as int) =~= chunk@);
        }
        found
    }
}

} // verus!
