//! The handshake of the JTAG-serial FIFO.
//!
//! Its rules are a machine, [`SerialJtagWrite`], that is told what each poll
//! of the status register said and answers with what to do next: on `Send`
//! the named bytes go into the FIFO register and the commit bit is set, on
//! `Poll` the register is only polled again, on `Stop` the write is over.
//! [`SerialJtag`] runs the machine over the peripheral's [`Registers`]. No
//! host attached means no progress, never a hang: a FIFO that is not ready
//! at the start ends the write at once, and one that stays busy after a
//! commit ends it after a fixed number of polls.

use vstd::prelude::*;
use crate::chunks::{chunk_end, next_chunk_end};
use crate::transport::{joined, lemma_joined_concat, Transport};

verus! {

/// Bytes that go into the FIFO between two commits.
pub const CHUNK_SIZE: usize = 64;

/// Polls that may find the FIFO busy after a commit before the next one
/// gives the write up.
pub const TIMEOUT_ITERATIONS: usize = 50_000;

/// The value that commits what the FIFO holds, written to the control
/// register.
pub const COMMIT: u32 = 0b001;

/// The bit of the status register that says the FIFO takes bytes.
pub const READY_BIT: u32 = 0b010;

/// Whether a word read from the status register says that the FIFO takes
/// bytes.
pub open spec fn is_ready(conf: u32) -> bool {
    conf & READY_BIT != 0
}

/// Whether the FIFO takes bytes, from what the status register said.
pub fn ready(conf: u32) -> (ready: bool)
    ensures
        ready == is_ready(conf),
{
    conf & READY_BIT != 0
}

/// The two registers of the peripheral, as the embedding program reaches
/// them. Nothing is assumed of what a read returns.
pub trait Registers {
    /// Reads the status and control register.
    fn read_conf(&mut self) -> u32;

    /// Writes the status and control register.
    fn write_conf(&mut self, value: u32);

    /// Queues one byte in the FIFO register.
    fn write_fifo(&mut self, byte: u8);
}

/// Where a write stands.
#[derive(Clone, Copy, Debug, PartialEq, Eq, Structural)]
pub enum Phase {
    /// Nothing sent yet; the first poll decides whether a host listens.
    Probe,
    /// A chunk was committed; waiting for the FIFO to drain.
    Drain,
    /// The write is over.
    Stopped,
}

/// What the driver does next.
#[derive(Clone, Copy, Debug, PartialEq, Eq, Structural)]
pub enum Action {
    /// Poll the status register again.
    Poll,
    /// Put the payload's bytes from `start` up to `end` into the FIFO, set
    /// the commit bit, then poll.
    Send { start: usize, end: usize },
    /// Return to the caller.
    Stop,
}

/// One write of a payload in progress.
#[derive(Clone, Copy, Debug, PartialEq, Eq, Structural)]
pub struct SerialJtagWrite {
    /// Length of the payload.
    pub len: usize,
    /// Most bytes per commit.
    pub chunk: usize,
    /// Bytes handed to the FIFO so far.
    pub sent: usize,
    /// Bytes of chunks that the FIFO was seen to have drained.
    pub flushed: usize,
    /// Busy polls still allowed while waiting for a drain.
    pub timeout: usize,
    pub phase: Phase,
}

/// The state before the first poll.
pub open spec fn initial(len: usize, chunk: usize) -> SerialJtagWrite {
    SerialJtagWrite { len, chunk, sent: 0, flushed: 0, timeout: TIMEOUT_ITERATIONS, phase: Phase::Probe }
}

/// The state with the write given up or done.
pub open spec fn stopped(s: SerialJtagWrite) -> SerialJtagWrite {
    SerialJtagWrite { phase: Phase::Stopped, ..s }
}

/// The FIFO is ready: what was sent has drained, and the next chunk goes
/// out, or the write is done where nothing is left.
pub open spec fn proceed(s: SerialJtagWrite) -> (SerialJtagWrite, Action) {
    if s.sent >= s.len {
        (SerialJtagWrite { flushed: s.sent, phase: Phase::Stopped, ..s }, Action::Stop)
    } else {
        let end = chunk_end(s.sent as int, s.len as int, s.chunk as int) as usize;
        (
            SerialJtagWrite {
                sent: end,
                flushed: s.sent,
                timeout: TIMEOUT_ITERATIONS,
                phase: Phase::Drain,
                ..s
            },
            Action::Send { start: s.sent, end },
        )
    }
}

/// The machine's step: the state after a poll that said `ready`, and what
/// the driver does next.
pub open spec fn step(s: SerialJtagWrite, ready: bool) -> (SerialJtagWrite, Action) {
    match s.phase {
        Phase::Stopped => (s, Action::Stop),
        Phase::Probe => if ready {
            proceed(s)
        } else {
            (stopped(s), Action::Stop)
        },
        Phase::Drain => if ready {
            proceed(s)
        } else if s.timeout == 0 {
            (stopped(s), Action::Stop)
        } else {
            (SerialJtagWrite { timeout: (s.timeout - 1) as usize, ..s }, Action::Poll)
        },
    }
}

/// The state after the polls of a write have said `statuses`, in this order.
pub open spec fn run(s: SerialJtagWrite, statuses: Seq<bool>) -> SerialJtagWrite
    decreases statuses.len(),
{
    if statuses.len() == 0 {
        s
    } else {
        step(run(s, statuses.drop_last()), statuses.last()).0
    }
}

/// The answers of `polls` polls in a row that all said `ready`.
pub open spec fn repeated(ready: bool, polls: nat) -> Seq<bool> {
    Seq::new(polls, |i: int| ready)
}

/// The state after `polls` polls in a row that found the FIFO busy.
pub open spec fn after_busy(s: SerialJtagWrite, polls: nat) -> SerialJtagWrite {
    run(s, repeated(false, polls))
}

/// The state after `polls` polls in a row that found the FIFO ready, with
/// the driver doing what each answer said.
pub open spec fn after_ready(s: SerialJtagWrite, polls: nat) -> SerialJtagWrite {
    run(s, repeated(true, polls))
}

impl SerialJtagWrite {
    /// The counters are in order: the chunk size is positive, nothing was
    /// sent beyond the payload, and nothing drained that was not sent.
    pub open spec fn wf(&self) -> bool {
        &&& self.chunk > 0
        &&& self.flushed <= self.sent <= self.len
        &&& self.timeout <= TIMEOUT_ITERATIONS
    }

    /// Starts the write of a payload of `len` bytes in chunks of `CHUNK_SIZE`.
    pub fn new(len: usize) -> (write: Self)
        ensures
            write == initial(len, CHUNK_SIZE),
            write.wf(),
    {
        SerialJtagWrite {
            len,
            chunk: CHUNK_SIZE,
            sent: 0,
            flushed: 0,
            timeout: TIMEOUT_ITERATIONS,
            phase: Phase::Probe,
        }
    }

    /// Starts the write of a payload of `len` bytes in chunks of `chunk`.
    pub fn with_chunk(len: usize, chunk: usize) -> (write: Self)
        requires
            chunk > 0,
        ensures
            write == initial(len, chunk),
            write.wf(),
    {
        SerialJtagWrite {
            len,
            chunk,
            sent: 0,
            flushed: 0,
            timeout: TIMEOUT_ITERATIONS,
            phase: Phase::Probe,
        }
    }

    /// Takes the answer of one poll of the status register and says what the
    /// driver does next.
    pub fn on_status(&mut self, ready: bool) -> (action: Action)
        requires
            old(self).wf(),
        ensures
            (*final(self), action) == step(*old(self), ready),
            final(self).wf(),
            action matches Action::Send { start, end } ==> start == old(self).sent && start < end
                <= old(self).len && end - start <= old(self).chunk && final(self).sent == end,
    {
        match self.phase {
            Phase::Stopped => Action::Stop,
            Phase::Probe => {
                if ready {
                    self.proceed()
                } else {
                    self.phase = Phase::Stopped;
                    Action::Stop
                }
            },
            Phase::Drain => {
                if ready {
                    self.proceed()
                } else if self.timeout == 0 {
                    self.phase = Phase::Stopped;
                    Action::Stop
                } else {
                    self.timeout = self.timeout - 1;
                    Action::Poll
                }
            },
        }
    }

    /// The FIFO was found ready: hands out the next chunk or ends the write.
    fn proceed(&mut self) -> (action: Action)
        requires
            old(self).wf(),
        ensures
            (*final(self), action) == proceed(*old(self)),
            final(self).wf(),
    {
        self.flushed = self.sent;
        if self.sent >= self.len {
            self.phase = Phase::Stopped;
            Action::Stop
        } else {
            let start: usize = self.sent;
            let end: usize = next_chunk_end(start, self.len, self.chunk);
            self.sent = end;
            self.timeout = TIMEOUT_ITERATIONS;
            self.phase = Phase::Drain;
            Action::Send { start, end }
        }
    }

    /// Whether the write is over.
    pub fn is_stopped(&self) -> (over: bool)
        ensures
            over == (self.phase == Phase::Stopped),
    {
        match self.phase {
            Phase::Stopped => true,
            _ => false,
        }
    }
}

/// One thing done to the peripheral's registers.
pub enum Event {
    /// The status register was read and held this word.
    Polled(u32),
    /// This byte was written to the FIFO register.
    Wrote(u8),
    /// This word was written to the control register.
    Committed(u32),
}

/// What the polls said, from the words that they read.
pub open spec fn answers(words: Seq<u32>) -> Seq<bool> {
    Seq::new(words.len(), |i: int| is_ready(words[i]))
}

/// What an answer of the machine makes the driver do to the registers: for
/// `Send`, the bytes of the chunk in order and then one write of `COMMIT` to
/// the control register; else nothing.
pub open spec fn action_events(action: Action, bytes: Seq<u8>) -> Seq<Event> {
    match action {
        Action::Send { start, end } => Seq::new(
            (end - start) as nat,
            |i: int| Event::Wrote(bytes[start + i]),
        ).push(Event::Committed(COMMIT)),
        _ => Seq::<Event>::empty(),
    }
}

/// Everything a write of `bytes` does to the registers while its polls read
/// `words`: each poll, and after it what the machine's answer asks for.
pub open spec fn transcript(s: SerialJtagWrite, bytes: Seq<u8>, words: Seq<u32>) -> Seq<Event>
    decreases words.len(),
{
    if words.len() == 0 {
        Seq::<Event>::empty()
    } else {
        transcript(s, bytes, words.drop_last()).push(Event::Polled(words.last())) + action_events(
            step(run(s, answers(words.drop_last())), is_ready(words.last())).1,
            bytes,
        )
    }
}

/// What whole writes of `payloads`, one after the other, do to the
/// registers while the polls of each read the words at its place in `polls`.
pub open spec fn writes_trace(chunk: usize, payloads: Seq<Seq<u8>>, polls: Seq<Seq<u32>>) -> Seq<
    Event,
>
    decreases payloads.len(),
{
    if payloads.len() == 0 {
        Seq::<Event>::empty()
    } else {
        writes_trace(chunk, payloads.drop_last(), polls.drop_last()) + transcript(
            initial(payloads.last().len() as usize, chunk),
            payloads.last(),
            polls.last(),
        )
    }
}

/// `after` is `before` and then what whole writes of `payloads` do, whose
/// bytes in a row are `bytes`.
pub open spec fn wrote_writes(
    chunk: usize,
    bytes: Seq<u8>,
    before: Seq<Event>,
    after: Seq<Event>,
    payloads: Seq<Seq<u8>>,
    polls: Seq<Seq<u32>>,
) -> bool {
    &&& whole_writes(chunk, payloads, polls)
    &&& joined(payloads) == bytes
    &&& after == before + writes_trace(chunk, payloads, polls)
}

/// The polls that read `words` are those of one whole write of `payload`.
pub open spec fn whole_write(chunk: usize, payload: Seq<u8>, words: Seq<u32>) -> bool {
    &&& payload.len() <= usize::MAX
    &&& completes(initial(payload.len() as usize, chunk), answers(words))
}

/// Each of the `payloads` has the polls of one whole write.
pub open spec fn whole_writes(chunk: usize, payloads: Seq<Seq<u8>>, polls: Seq<Seq<u32>>) -> bool {
    &&& payloads.len() == polls.len()
    &&& forall|i: int|
        0 <= i < payloads.len() ==> #[trigger] whole_write(chunk, payloads[i], polls[i])
}

/// The bytes written to the FIFO among `events`, in order.
pub open spec fn wrote_bytes(events: Seq<Event>) -> Seq<u8>
    decreases events.len(),
{
    if events.len() == 0 {
        Seq::<u8>::empty()
    } else {
        match events.last() {
            Event::Wrote(byte) => wrote_bytes(events.drop_last()).push(byte),
            _ => wrote_bytes(events.drop_last()),
        }
    }
}

/// The polls that said `statuses` are those of one whole write: the last of
/// them ended it, and none before.
pub open spec fn completes(s: SerialJtagWrite, statuses: Seq<bool>) -> bool {
    &&& statuses.len() > 0
    &&& run(s, statuses.drop_last()).phase != Phase::Stopped
    &&& run(s, statuses).phase == Phase::Stopped
}

/// What bounds the polls still to come: the bytes not yet handed out, one
/// more before the first poll, and below that the busy polls still allowed.
pub open spec fn polls_ahead(s: SerialJtagWrite) -> (int, int) {
    (
        s.len - s.sent + if s.phase == Phase::Probe {
            1int
        } else {
            0int
        },
        s.timeout as int,
    )
}

/// The JTAG-serial transport over the peripheral's registers.
pub struct SerialJtag<R: Registers> {
    registers: R,
    /// Most bytes per commit.
    chunk: usize,
    /// Everything this transport has done to the registers, in order.
    trace: Ghost<Seq<Event>>,
}

impl<R: Registers> SerialJtag<R> {
    /// Most bytes per commit.
    pub closed spec fn chunk(&self) -> usize {
        self.chunk
    }

    /// Everything this transport has done to the registers, in order. Only
    /// the transport touches them, so nothing else was done to them.
    pub closed spec fn trace(&self) -> Seq<Event> {
        self.trace@
    }

    /// The registers that the transport holds.
    pub closed spec fn held(&self) -> R {
        self.registers
    }

    /// The transport over `registers`, with chunks of `CHUNK_SIZE` bytes.
    pub fn new(registers: R) -> (transport: Self)
        ensures
            transport.held() == registers,
            transport.chunk() == CHUNK_SIZE,
            transport.trace() == Seq::<Event>::empty(),
    {
        SerialJtag { registers, chunk: CHUNK_SIZE, trace: Ghost(Seq::empty()) }
    }

    /// The transport over `registers`, with chunks of `chunk` bytes.
    pub fn with_chunk(registers: R, chunk: usize) -> (transport: Self)
        requires
            chunk > 0,
        ensures
            transport.held() == registers,
            transport.chunk() == chunk,
            transport.trace() == Seq::<Event>::empty(),
    {
        SerialJtag { registers, chunk, trace: Ghost(Seq::empty()) }
    }

    /// The registers, to look at.
    pub fn registers(&self) -> (registers: &R)
        ensures
            *registers == self.held(),
    {
        &self.registers
    }

    /// Reads the status and control register, and keeps the word read.
    fn read_conf(&mut self) -> (conf: u32)
        ensures
            final(self).chunk() == old(self).chunk(),
            final(self).trace() == old(self).trace().push(Event::Polled(conf)),
    {
        let conf: u32 = self.registers.read_conf();
        self.trace = Ghost(self.trace@.push(Event::Polled(conf)));
        conf
    }

    /// Writes the status and control register, and keeps the word written.
    fn write_conf(&mut self, value: u32)
        ensures
            final(self).chunk() == old(self).chunk(),
            final(self).trace() == old(self).trace().push(Event::Committed(value)),
    {
        self.registers.write_conf(value);
        self.trace = Ghost(self.trace@.push(Event::Committed(value)));
    }

    /// Commits what the FIFO holds: one write of `COMMIT` to the control
    /// register, and nothing else.
    fn fifo_flush(&mut self)
        ensures
            final(self).chunk() == old(self).chunk(),
            final(self).trace() == old(self).trace().push(Event::Committed(COMMIT)),
    {
        self.write_conf(COMMIT);
    }

    /// Polls the status register once: whether the word read has the ready
    /// bit set.
    fn fifo_clear(&mut self) -> (clear: bool)
        ensures
            final(self).chunk() == old(self).chunk(),
            final(self).trace() == old(self).trace().push(final(self).trace().last()),
            final(self).trace().last() matches Event::Polled(conf) && clear == is_ready(conf),
    {
        let conf: u32 = self.read_conf();
        ready(conf)
    }

    /// Queues one byte: one write of it to the FIFO register.
    fn fifo_write(&mut self, byte: u8)
        ensures
            final(self).chunk() == old(self).chunk(),
            final(self).trace() == old(self).trace().push(Event::Wrote(byte)),
    {
        self.registers.write_fifo(byte);
        self.trace = Ghost(self.trace@.push(Event::Wrote(byte)));
    }

    /// Runs one write to its end and returns the machine as it stopped:
    /// how many bytes went to the FIFO and how many the host was seen to
    /// take. What was done to the registers is the transcript of the
    /// machine for the answers that the polls gave, up to the poll that
    /// ended the write. The call returns whatever the status register says:
    /// each round either hands out bytes not sent before or uses up one of
    /// the busy polls allowed.
    pub fn write_bytes_assume_cs(&mut self, bytes: &[u8]) -> (end: SerialJtagWrite)
        requires
            old(self).chunk() > 0,
        ensures
            final(self).chunk() == old(self).chunk(),
            end.wf(),
            end.len == bytes@.len(),
            end.phase == Phase::Stopped,
            wrote_bytes(final(self).trace()) == wrote_bytes(old(self).trace()) + bytes@.subrange(
                0,
                end.sent as int,
            ),
            exists|words: Seq<u32>|
                {
                    &&& completes(initial(bytes.len(), old(self).chunk()), answers(words))
                    &&& end == run(initial(bytes.len(), old(self).chunk()), answers(words))
                    &&& final(self).trace() == old(self).trace() + #[trigger] transcript(
                        initial(bytes.len(), old(self).chunk()),
                        bytes@,
                        words,
                    )
                },
    {
        let ghost start = initial(bytes.len(), self.chunk);
        let ghost mut words: Seq<u32> = Seq::empty();
        let mut machine = SerialJtagWrite::with_chunk(bytes.len(), self.chunk);
        proof {
            assert(self.trace() =~= old(self).trace() + transcript(start, bytes@, words));
            assert(answers(words) =~= Seq::<bool>::empty());
        }
        loop
            invariant
                machine.wf(),
                machine.phase != Phase::Stopped,
                machine.len == bytes@.len(),
                machine.chunk == old(self).chunk(),
                self.chunk() == old(self).chunk(),
                start == initial(bytes.len(), old(self).chunk()),
                machine == run(start, answers(words)),
                self.trace() == old(self).trace() + transcript(start, bytes@, words),
            decreases polls_ahead(machine).0, polls_ahead(machine).1,
        {
            let clear = self.fifo_clear();
            let action = machine.on_status(clear);
            proof {
                let conf = match self.trace().last() {
                    Event::Polled(conf) => conf,
                    _ => 0u32,
                };
                let next = words.push(conf);
                assert(next.drop_last() =~= words);
                assert(answers(next).drop_last() =~= answers(words));
                assert(answers(next).last() == clear);
                assert(run(start, answers(next)) == machine);
                assert(transcript(start, bytes@, next) == transcript(start, bytes@, words).push(
                    Event::Polled(conf),
                ) + action_events(action, bytes@));
                words = next;
            }
            let ghost base = self.trace();
            match action {
                Action::Poll => {
                    proof {
                        assert(self.trace() =~= old(self).trace() + transcript(
                            start,
                            bytes@,
                            words,
                        ));
                    }
                },
                Action::Send { start: from, end: to } => {
                    let mut i: usize = from;
                    while i < to
                        invariant
                            from <= i <= to <= bytes@.len(),
                            self.chunk() == old(self).chunk(),
                            self.trace() == base + Seq::new(
                                (i - from) as nat,
                                |k: int| Event::Wrote(bytes@[from + k]),
                            ),
                        decreases to - i,
                    {
                        self.fifo_write(bytes[i]);
                        i = i + 1;
                        assert(self.trace() =~= base + Seq::new(
                            (i - from) as nat,
                            |k: int| Event::Wrote(bytes@[from + k]),
                        ));
                    }
                    self.fifo_flush();
                    proof {
                        assert(self.trace() =~= old(self).trace() + transcript(
                            start,
                            bytes@,
                            words,
                        ));
                    }
                },
                Action::Stop => {
                    proof {
                        assert(self.trace() =~= old(self).trace() + transcript(
                            start,
                            bytes@,
                            words,
                        ));
                        assert(completes(start, answers(words)));
                        lemma_transcript_writes_prefix(start, bytes@, words);
                        lemma_wrote_bytes_concat(
                            old(self).trace(),
                            transcript(start, bytes@, words),
                        );
                    }
                    return machine;
                },
            }
        }
    }
}

impl<R: Registers> Transport for SerialJtag<R> {
    open spec fn wf(&self) -> bool {
        self.chunk() > 0
    }

    /// The transport keeps its chunk size, and did to the registers what
    /// whole writes do, one after the other, whose payloads in a row are the
    /// bytes: for each its polls, and its chunks with a commit after each,
    /// as far as the polls let it go. What the host received is not known to
    /// the device.
    open spec fn consumed(&self, bytes: Seq<u8>, after: Self) -> bool {
        &&& after.chunk() == self.chunk()
        &&& exists|payloads: Seq<Seq<u8>>, polls: Seq<Seq<u32>>|
            #[trigger] wrote_writes(
                self.chunk(),
                bytes,
                self.trace(),
                after.trace(),
                payloads,
                polls,
            )
    }

    /// A write takes the payload whole.
    open spec fn takes(&self, len: nat) -> nat {
        len
    }

    open spec fn writes_for(&self, len: nat) -> nat {
        1
    }

    proof fn lemma_writes_for(&self, len: nat, taken: Seq<u8>, after: Self) {
    }

    proof fn lemma_consumed_nothing(&self) {
        let payloads = Seq::<Seq<u8>>::empty();
        let polls = Seq::<Seq<u32>>::empty();
        assert(self.trace() =~= self.trace() + writes_trace(self.chunk(), payloads, polls));
        assert(wrote_writes(
            self.chunk(),
            Seq::<u8>::empty(),
            self.trace(),
            self.trace(),
            payloads,
            polls,
        ));
    }

    proof fn lemma_consumed_concat(&self, first: Seq<u8>, mid: Self, second: Seq<u8>, after: Self) {
        let chunk = self.chunk();
        let (p1, q1) = choose|payloads: Seq<Seq<u8>>, polls: Seq<Seq<u32>>|
            #[trigger] wrote_writes(chunk, first, self.trace(), mid.trace(), payloads, polls);
        let (p2, q2) = choose|payloads: Seq<Seq<u8>>, polls: Seq<Seq<u32>>|
            #[trigger] wrote_writes(chunk, second, mid.trace(), after.trace(), payloads, polls);
        lemma_joined_concat(p1, p2);
        lemma_writes_trace_concat(chunk, p1, q1, p2, q2);
        lemma_whole_writes_concat(chunk, p1, q1, p2, q2);
        assert(after.trace() =~= self.trace() + writes_trace(chunk, p1 + p2, q1 + q2));
        assert(wrote_writes(chunk, first + second, self.trace(), after.trace(), p1 + p2, q1 + q2));
    }

    /// Best effort: the payload counts as taken whole, also where the host
    /// was missing or stalled and bytes were dropped.
    fn write(&mut self, bytes: &[u8]) -> (count: usize)
        ensures
            count == bytes@.len(),
    {
        let _ = self.write_bytes_assume_cs(bytes);
        proof {
            let chunk = old(self).chunk();
            let start = initial(bytes.len(), chunk);
            let words = choose|words: Seq<u32>|
                {
                    &&& completes(start, answers(words))
                    &&& self.trace() == old(self).trace() + #[trigger] transcript(
                        start,
                        bytes@,
                        words,
                    )
                };
            let payloads = seq![bytes@];
            let polls = seq![words];
            assert(whole_write(chunk, payloads[0], polls[0]));
            assert(whole_writes(chunk, payloads, polls));
            assert(payloads.drop_last() =~= Seq::<Seq<u8>>::empty());
            assert(polls.drop_last() =~= Seq::<Seq<u32>>::empty());
            assert(joined(payloads.drop_last()) =~= Seq::<u8>::empty());
            assert(joined(payloads) =~= bytes@);
            assert(writes_trace(chunk, payloads.drop_last(), polls.drop_last())
                =~= Seq::<Event>::empty());
            assert(writes_trace(chunk, payloads, polls) =~= transcript(start, bytes@, words));
            assert(bytes@.subrange(0, bytes@.len() as int) =~= bytes@);
            assert(wrote_writes(
                chunk,
                bytes@.subrange(0, bytes@.len() as int),
                old(self).trace(),
                self.trace(),
                payloads,
                polls,
            ));
        }
        bytes.len()
    }
}

/// Whole writes and more whole writes are whole writes.
pub proof fn lemma_whole_writes_concat(
    chunk: usize,
    p1: Seq<Seq<u8>>,
    q1: Seq<Seq<u32>>,
    p2: Seq<Seq<u8>>,
    q2: Seq<Seq<u32>>,
)
    requires
        whole_writes(chunk, p1, q1),
        whole_writes(chunk, p2, q2),
    ensures
        whole_writes(chunk, p1 + p2, q1 + q2),
{
    assert forall|i: int| 0 <= i < (p1 + p2).len() implies #[trigger] whole_write(
        chunk,
        (p1 + p2)[i],
        (q1 + q2)[i],
    ) by {
        if i < p1.len() {
            assert(whole_write(chunk, p1[i], q1[i]));
        } else {
            let k = i - p1.len();
            assert(whole_write(chunk, p2[k], q2[k]));
        }
    }
}

/// Whole writes in a row do to the registers what the first of them do and
/// then what the rest do.
pub proof fn lemma_writes_trace_concat(
    chunk: usize,
    p1: Seq<Seq<u8>>,
    q1: Seq<Seq<u32>>,
    p2: Seq<Seq<u8>>,
    q2: Seq<Seq<u32>>,
)
    requires
        p1.len() == q1.len(),
        p2.len() == q2.len(),
    ensures
        writes_trace(chunk, p1 + p2, q1 + q2) == writes_trace(chunk, p1, q1) + writes_trace(
            chunk,
            p2,
            q2,
        ),
    decreases p2.len(),
{
    if p2.len() == 0 {
        assert(p1 + p2 =~= p1);
        assert(q1 + q2 =~= q1);
        assert(writes_trace(chunk, p1, q1) + writes_trace(chunk, p2, q2) =~= writes_trace(
            chunk,
            p1,
            q1,
        ));
    } else {
        lemma_writes_trace_concat(chunk, p1, q1, p2.drop_last(), q2.drop_last());
        assert((p1 + p2).drop_last() =~= p1 + p2.drop_last());
        assert((q1 + q2).drop_last() =~= q1 + q2.drop_last());
        assert((p1 + p2).last() == p2.last());
        assert((q1 + q2).last() == q2.last());
        assert(writes_trace(chunk, p1 + p2, q1 + q2) =~= writes_trace(chunk, p1, q1)
            + writes_trace(chunk, p2, q2));
    }
}

/// With no host attached the write sends nothing: where the first poll
/// finds the FIFO busy, the answer is `Stop`, no byte was handed out, and
/// the machine stays stopped whatever is polled later.
pub proof fn lemma_no_host_sends_nothing(len: usize, chunk: usize, later: bool)
    ensures
        step(initial(len, chunk), false).1 == Action::Stop,
        step(initial(len, chunk), false).0.sent == 0,
        step(initial(len, chunk), false).0.phase == Phase::Stopped,
        step(step(initial(len, chunk), false).0, later) == (
            step(initial(len, chunk), false).0,
            Action::Stop,
        ),
{
}

/// One more poll with the same answer is one more step of the machine.
proof fn lemma_repeated_step(s: SerialJtagWrite, ready: bool, polls: nat)
    requires
        polls > 0,
    ensures
        run(s, repeated(ready, polls)) == step(
            run(s, repeated(ready, (polls - 1) as nat)),
            ready,
        ).0,
{
    assert(repeated(ready, polls).drop_last() =~= repeated(ready, (polls - 1) as nat));
}

/// The polls of a write may be split anywhere: the machine goes on from
/// where the first part left it.
pub proof fn lemma_run_concat(s: SerialJtagWrite, first: Seq<bool>, second: Seq<bool>)
    ensures
        run(s, first + second) == run(run(s, first), second),
    decreases second.len(),
{
    if second.len() == 0 {
        assert(first + second =~= first);
    } else {
        lemma_run_concat(s, first, second.drop_last());
        assert((first + second).drop_last() =~= first + second.drop_last());
    }
}

/// A write that is over stays over, whatever is polled.
pub proof fn lemma_stopped_stays(s: SerialJtagWrite, statuses: Seq<bool>)
    requires
        s.phase == Phase::Stopped,
    ensures
        run(s, statuses) == s,
    decreases statuses.len(),
{
    if statuses.len() > 0 {
        lemma_stopped_stays(s, statuses.drop_last());
    }
}

/// While the FIFO stays busy after a commit, each poll within the allowance
/// only uses it up: the answer is `Poll`, and the counts of bytes sent and
/// drained stay as they are.
pub proof fn lemma_busy_polls_wait(s: SerialJtagWrite, polls: nat)
    requires
        s.phase == Phase::Drain,
        polls <= s.timeout,
    ensures
        after_busy(s, polls) == (SerialJtagWrite { timeout: (s.timeout - polls) as usize, ..s }),
        polls > 0 ==> step(after_busy(s, (polls - 1) as nat), false).1 == Action::Poll,
    decreases polls,
{
    if polls > 0 {
        lemma_busy_polls_wait(s, (polls - 1) as nat);
        lemma_repeated_step(s, false, polls);
    }
}

/// A FIFO that never drains ends the write after exactly
/// `TIMEOUT_ITERATIONS + 1` polls: after a commit, that many busy polls less
/// one are answered with `Poll`, the last with `Stop`, and the machine stops
/// with the chunks sent and drained before the stall, and no more.
pub proof fn lemma_stall_times_out(s: SerialJtagWrite, ready: bool)
    requires
        s.wf(),
        s.phase != Phase::Stopped,
        step(s, ready).1 is Send,
    ensures
        ({
            let committed = step(s, ready).0;
            let last = after_busy(committed, TIMEOUT_ITERATIONS as nat);
            &&& forall|polls: nat|
                0 < polls <= TIMEOUT_ITERATIONS ==> #[trigger] step(
                    after_busy(committed, (polls - 1) as nat),
                    false,
                ).1 == Action::Poll
            &&& step(last, false).1 == Action::Stop
            &&& step(last, false).0.phase == Phase::Stopped
            &&& step(last, false).0.sent == committed.sent
            &&& step(last, false).0.flushed == s.sent
        }),
{
    let committed = step(s, ready).0;
    assert forall|polls: nat| 0 < polls <= TIMEOUT_ITERATIONS implies #[trigger] step(
        after_busy(committed, (polls - 1) as nat),
        false,
    ).1 == Action::Poll by {
        lemma_busy_polls_wait(committed, polls);
    }
    lemma_busy_polls_wait(committed, TIMEOUT_ITERATIONS as nat);
}

/// The bytes written among two runs of events in a row are those of the
/// first and then those of the second.
pub proof fn lemma_wrote_bytes_concat(first: Seq<Event>, second: Seq<Event>)
    ensures
        wrote_bytes(first + second) == wrote_bytes(first) + wrote_bytes(second),
    decreases second.len(),
{
    if second.len() == 0 {
        assert(first + second =~= first);
        assert(wrote_bytes(first) + wrote_bytes(second) =~= wrote_bytes(first));
    } else {
        lemma_wrote_bytes_concat(first, second.drop_last());
        assert((first + second).drop_last() =~= first + second.drop_last());
        assert((first + second).last() == second.last());
        match second.last() {
            Event::Wrote(byte) => {
                assert(wrote_bytes(first + second) =~= wrote_bytes(first) + wrote_bytes(second));
            },
            _ => {},
        }
    }
}

/// The bytes written among the first `count` events of a chunk are the
/// first `count` bytes of the chunk.
proof fn lemma_chunk_wrote(bytes: Seq<u8>, start: int, count: nat)
    requires
        0 <= start,
        start + count <= bytes.len(),
    ensures
        wrote_bytes(Seq::new(count, |i: int| Event::Wrote(bytes[start + i]))) == bytes.subrange(
            start,
            start + count,
        ),
    decreases count,
{
    let events = Seq::new(count, |i: int| Event::Wrote(bytes[start + i]));
    if count == 0 {
        assert(bytes.subrange(start, start + count) =~= Seq::<u8>::empty());
    } else {
        let fewer = (count - 1) as nat;
        lemma_chunk_wrote(bytes, start, fewer);
        assert(events.drop_last() =~= Seq::new(fewer, |i: int| Event::Wrote(bytes[start + i])));
        assert(events.last() == Event::Wrote(bytes[start + count - 1]));
        assert(bytes.subrange(start, start + fewer).push(bytes[start + count - 1])
            =~= bytes.subrange(start, start + count));
    }
}

/// The machine keeps its counters in order, never takes back what was sent,
/// and never changes the payload's length or the chunk size.
pub proof fn lemma_run_wf(s: SerialJtagWrite, statuses: Seq<bool>)
    requires
        s.wf(),
    ensures
        run(s, statuses).wf(),
        run(s, statuses).len == s.len,
        run(s, statuses).chunk == s.chunk,
        run(s, statuses).sent >= s.sent,
    decreases statuses.len(),
{
    if statuses.len() > 0 {
        lemma_run_wf(s, statuses.drop_last());
    }
}

/// Whatever the polls read, the bytes that a write puts into the FIFO are
/// the bytes of the payload from where it stood to where it stands, each
/// once and in order: nothing is skipped, repeated or reordered, and a
/// write that gives up has written the chunks before that point and no
/// others.
pub proof fn lemma_transcript_writes_prefix(s: SerialJtagWrite, bytes: Seq<u8>, words: Seq<u32>)
    requires
        s.wf(),
        bytes.len() == s.len,
    ensures
        s.sent <= run(s, answers(words)).sent <= s.len,
        wrote_bytes(transcript(s, bytes, words)) == bytes.subrange(
            s.sent as int,
            run(s, answers(words)).sent as int,
        ),
    decreases words.len(),
{
    lemma_run_wf(s, answers(words));
    if words.len() == 0 {
        assert(bytes.subrange(s.sent as int, s.sent as int) =~= Seq::<u8>::empty());
    } else {
        let earlier = words.drop_last();
        assert(answers(words).drop_last() =~= answers(earlier));
        let before = run(s, answers(earlier));
        let action = step(before, is_ready(words.last())).1;
        let polled = transcript(s, bytes, earlier).push(Event::Polled(words.last()));
        lemma_run_wf(s, answers(earlier));
        lemma_transcript_writes_prefix(s, bytes, earlier);
        assert(polled.drop_last() =~= transcript(s, bytes, earlier));
        assert(wrote_bytes(polled) == wrote_bytes(transcript(s, bytes, earlier)));
        lemma_wrote_bytes_concat(polled, action_events(action, bytes));
        match action {
            Action::Send { start, end } => {
                let chunk = Seq::new((end - start) as nat, |i: int| Event::Wrote(bytes[start + i]));
                assert(action_events(action, bytes).drop_last() =~= chunk);
                lemma_chunk_wrote(bytes, start as int, (end - start) as nat);
                assert(bytes.subrange(s.sent as int, start as int) + bytes.subrange(
                    start as int,
                    end as int,
                ) =~= bytes.subrange(s.sent as int, end as int));
            },
            _ => {
                assert(wrote_bytes(action_events(action, bytes)) =~= Seq::<u8>::empty());
                assert(wrote_bytes(polled) + Seq::<u8>::empty() =~= wrote_bytes(polled));
            },
        }
    }
}

/// A whole write whose first poll found the FIFO busy is that one poll and
/// nothing else: no byte reaches the FIFO and nothing is committed.
pub proof fn lemma_no_host_transcript(len: usize, chunk: usize, bytes: Seq<u8>, words: Seq<u32>)
    requires
        completes(initial(len, chunk), answers(words)),
        !is_ready(words[0]),
    ensures
        words.len() == 1,
        transcript(initial(len, chunk), bytes, words) == seq![Event::Polled(words[0])],
        run(initial(len, chunk), answers(words)).sent == 0,
{
    let start = initial(len, chunk);
    let statuses = answers(words);
    let first = seq![false];
    assert(first.drop_last() =~= Seq::<bool>::empty());
    assert(run(start, first) == step(run(start, first.drop_last()), false).0);
    if statuses.len() > 1 {
        let rest = statuses.drop_last().subrange(1, statuses.len() - 1);
        assert(statuses.drop_last() =~= first + rest);
        lemma_run_concat(start, first, rest);
        lemma_stopped_stays(run(start, first), rest);
    }
    assert(statuses =~= first);
    assert(answers(words.drop_last()) =~= Seq::<bool>::empty());
    assert(transcript(start, bytes, words.drop_last()) == Seq::<Event>::empty());
    assert(transcript(start, bytes, words) =~= seq![Event::Polled(words[0])]);
}

/// A whole write that stalls ends on exactly the `TIMEOUT_ITERATIONS + 1`st
/// busy poll: where the polls `served` ended with a chunk going out and
/// every poll after them found the FIFO busy, there were that many of these,
/// and the write ended with the bytes sent that had been sent when the
/// stall began.
pub proof fn lemma_stalled_write_polls(s: SerialJtagWrite, served: Seq<bool>, stall: nat)
    requires
        served.len() > 0,
        step(run(s, served.drop_last()), served.last()).1 is Send,
        run(s, served.drop_last()).phase != Phase::Stopped,
        completes(s, served + repeated(false, stall)),
    ensures
        stall == TIMEOUT_ITERATIONS + 1,
        run(s, served + repeated(false, stall)).sent == run(s, served).sent,
        run(s, served + repeated(false, stall)).flushed == run(s, served).flushed,
{
    let committed = run(s, served);
    let limit = TIMEOUT_ITERATIONS as nat;
    assert(committed.phase == Phase::Drain && committed.timeout == TIMEOUT_ITERATIONS);
    lemma_run_concat(s, served, repeated(false, stall));
    if stall == 0 {
        assert(served + repeated(false, stall) =~= served);
    } else {
        let fewer = (stall - 1) as nat;
        assert((served + repeated(false, stall)).drop_last() =~= served + repeated(false, fewer));
        lemma_run_concat(s, served, repeated(false, fewer));
        lemma_busy_polls_wait(committed, limit);
        lemma_repeated_step(committed, false, limit + 1);
        let over = after_busy(committed, limit + 1);
        assert(over.phase == Phase::Stopped);
        if stall <= limit {
            lemma_busy_polls_wait(committed, stall);
        } else if fewer > limit {
            let extra = (fewer - (limit + 1)) as nat;
            assert(repeated(false, fewer) =~= repeated(false, limit + 1) + repeated(false, extra));
            lemma_run_concat(committed, repeated(false, limit + 1), repeated(false, extra));
            lemma_stopped_stays(over, repeated(false, extra));
        }
    }
}

/// Polling once more after `polls` ready polls is the same as starting one
/// ready poll later.
proof fn lemma_after_ready_shift(s: SerialJtagWrite, polls: nat)
    ensures
        after_ready(step(s, true).0, polls) == after_ready(s, polls + 1),
    decreases polls,
{
    lemma_repeated_step(s, true, polls + 1);
    if polls > 0 {
        lemma_after_ready_shift(s, (polls - 1) as nat);
        lemma_repeated_step(step(s, true).0, true, polls);
    }
}

/// With a host that drains the FIFO by the next poll, the write sends every
/// byte: from any state of a running write, a number of ready polls, at most
/// one for each byte left and one more, ends it with the whole payload sent
/// and drained. The number is returned.
pub proof fn lemma_ready_host_takes_all(s: SerialJtagWrite) -> (polls: nat)
    requires
        s.wf(),
        s.phase != Phase::Stopped,
    ensures
        0 < polls <= s.len - s.sent + 1,
        after_ready(s, polls).phase == Phase::Stopped,
        after_ready(s, polls).sent == s.len,
        after_ready(s, polls).flushed == s.len,
    decreases s.len - s.sent,
{
    lemma_repeated_step(s, true, 1);
    if s.sent >= s.len {
        1
    } else {
        let next = step(s, true).0;
        let more = lemma_ready_host_takes_all(next);
        lemma_after_ready_shift(s, more);
        more + 1
    }
}

} // verus!
