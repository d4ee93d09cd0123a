//! The UART paths: always attached, so every byte of a payload goes out.
//!
//! The payload is cut into chunks. Each chunk is transmitted byte by byte,
//! then the device flushes or waits for the peripheral as the chip's path
//! says. The device itself reaches the crate as an impl of [`Functions`].

use vstd::prelude::*;
use crate::chip::{RomFlush, UartPath};
use crate::chunks::{chunk_end, next_chunk_end};
use crate::transport::{joined, lemma_joined_concat, Transport};

verus! {

/// What a chip's UART does, as the embedding program reaches it.
pub trait Functions {
    /// Transmits one byte; returns when the peripheral has taken it.
    fn tx_byte(&mut self, byte: u8);

    /// Ends a chunk: returns when the peripheral has sent what it was given.
    fn flush(&mut self);
}

/// One write of a payload in progress.
#[derive(Clone, Copy, Debug, PartialEq, Eq, Structural)]
pub struct UartWrite {
    /// Length of the payload.
    pub len: usize,
    /// Most bytes between two flushes.
    pub chunk: usize,
    /// Bytes handed to the driver so far.
    pub sent: usize,
    /// Whether a flush ends each chunk.
    pub flush: bool,
}

/// The bytes between two flushes on `path`. A path that never flushes takes
/// the payload in one piece.
pub open spec fn path_chunk(path: UartPath, len: usize) -> usize {
    match path {
        UartPath::Rom { .. } => if len == 0 {
            1
        } else {
            len
        },
        UartPath::RomChunked { chunk, .. } => chunk,
        UartPath::Fifo { chunk, .. } => chunk,
    }
}

/// Whether a flush ends each chunk on `path`. The plain ROM routine waits by
/// itself, so that path never flushes.
pub open spec fn path_flushes(path: UartPath) -> bool {
    !(path is Rom)
}

/// The write of a payload of `len` bytes on `path`, before its first chunk.
pub open spec fn start_of(path: UartPath, len: usize) -> UartWrite {
    UartWrite { len, chunk: path_chunk(path, len), sent: 0, flush: path_flushes(path) }
}

/// The state after the next chunk was handed out, and that chunk as the
/// range of the payload from the first to the second number; `None` where
/// the whole payload has gone out.
pub open spec fn next_chunk(w: UartWrite) -> (UartWrite, Option<(usize, usize)>) {
    if w.sent >= w.len {
        (w, None)
    } else {
        let end = chunk_end(w.sent as int, w.len as int, w.chunk as int) as usize;
        (UartWrite { sent: end, ..w }, Some((w.sent, end)))
    }
}

/// One thing asked of the device.
pub enum Op {
    /// A byte was handed over for transmission.
    Sent(u8),
    /// The device was told to end the chunk.
    Flushed,
}

/// What one chunk asks of the device: its bytes in order, then a flush
/// where the path has one.
pub open spec fn chunk_ops(bytes: Seq<u8>, start: int, end: int, flush: bool) -> Seq<Op> {
    let sent = Seq::new((end - start) as nat, |i: int| Op::Sent(bytes[start + i]));
    if flush {
        sent.push(Op::Flushed)
    } else {
        sent
    }
}

/// What the rest of a write asks of the device: chunk after chunk, from
/// where the write stands to the end of the payload.
pub open spec fn ops_from(w: UartWrite, bytes: Seq<u8>) -> Seq<Op>
    decreases w.len - w.sent,
{
    if w.sent >= w.len || w.chunk == 0 {
        Seq::<Op>::empty()
    } else {
        let end = chunk_end(w.sent as int, w.len as int, w.chunk as int);
        chunk_ops(bytes, w.sent as int, end, w.flush) + ops_from(next_chunk(w).0, bytes)
    }
}

/// What whole writes of `payloads`, one after the other, ask of the device.
pub open spec fn writes_ops(path: UartPath, payloads: Seq<Seq<u8>>) -> Seq<Op>
    decreases payloads.len(),
{
    if payloads.len() == 0 {
        Seq::<Op>::empty()
    } else {
        writes_ops(path, payloads.drop_last()) + ops_from(
            start_of(path, payloads.last().len() as usize),
            payloads.last(),
        )
    }
}

/// A payload is no longer than a slice can be.
pub open spec fn fits(payload: Seq<u8>) -> bool {
    payload.len() <= usize::MAX
}

/// `after` is `before` and then what whole writes of `payloads` ask, whose
/// bytes in a row are `bytes`.
pub open spec fn asked_writes(
    path: UartPath,
    bytes: Seq<u8>,
    before: Seq<Op>,
    after: Seq<Op>,
    payloads: Seq<Seq<u8>>,
) -> bool {
    &&& forall|i: int| 0 <= i < payloads.len() ==> #[trigger] fits(payloads[i])
    &&& joined(payloads) == bytes
    &&& after == before + writes_ops(path, payloads)
}

/// The bytes among `ops`, in order.
pub open spec fn sent_bytes(ops: Seq<Op>) -> Seq<u8>
    decreases ops.len(),
{
    if ops.len() == 0 {
        Seq::<u8>::empty()
    } else {
        match ops.last() {
            Op::Sent(byte) => sent_bytes(ops.drop_last()).push(byte),
            Op::Flushed => sent_bytes(ops.drop_last()),
        }
    }
}

impl UartWrite {
    /// The counters are in order: chunks are not empty, and nothing was
    /// handed out beyond the payload.
    pub open spec fn wf(&self) -> bool {
        &&& self.chunk > 0
        &&& self.sent <= self.len
    }

    /// Starts the write of a payload of `len` bytes on `path`.
    pub fn new(path: UartPath, len: usize) -> (write: Self)
        requires
            path.wf(),
        ensures
            write == start_of(path, len),
            write.wf(),
    {
        let chunk: usize = match path {
            UartPath::Rom { .. } => if len == 0 {
                1
            } else {
                len
            },
            UartPath::RomChunked { chunk, .. } => chunk,
            UartPath::Fifo { chunk, .. } => chunk,
        };
        let flush: bool = match path {
            UartPath::Rom { .. } => false,
            _ => true,
        };
        UartWrite { len, chunk, sent: 0, flush }
    }

    /// Hands out the next chunk: the range of the payload that the driver
    /// transmits before it flushes. Each chunk starts where the last one
    /// ended, is not empty and not longer than the chunk size; `None` comes
    /// exactly when the whole payload has been handed out.
    pub fn next(&mut self) -> (range: Option<(usize, usize)>)
        requires
            old(self).wf(),
        ensures
            (*final(self), range) == next_chunk(*old(self)),
            final(self).wf(),
            range is None <==> old(self).sent == old(self).len,
            range matches Some((start, end)) ==> start == old(self).sent && start < end
                <= old(self).len && end - start <= old(self).chunk && final(self).sent == end,
    {
        if self.sent >= self.len {
            None
        } else {
            let start: usize = self.sent;
            let end: usize = next_chunk_end(start, self.len, self.chunk);
            self.sent = end;
            Some((start, end))
        }
    }
}

/// The UART transport over `device`, on the path of its chip.
pub struct Uart<D: Functions> {
    device: D,
    path: UartPath,
    /// Everything this transport has asked of the device, in order.
    trace: Ghost<Seq<Op>>,
}

impl<D: Functions> Uart<D> {
    /// The path of the chip.
    pub closed spec fn path(&self) -> UartPath {
        self.path
    }

    /// Everything this transport has asked of the device, in order. Only
    /// the transport reaches the device, so nothing else was asked of it.
    pub closed spec fn trace(&self) -> Seq<Op> {
        self.trace@
    }

    /// The device that the transport holds.
    pub closed spec fn held(&self) -> D {
        self.device
    }

    /// The transport over `device` on `path`.
    pub fn new(device: D, path: UartPath) -> (transport: Self)
        requires
            path.wf(),
        ensures
            transport.held() == device,
            transport.path() == path,
            transport.trace() == Seq::<Op>::empty(),
    {
        Uart { device, path, trace: Ghost(Seq::empty()) }
    }

    /// The device, to look at.
    pub fn device(&self) -> (device: &D)
        ensures
            *device == self.held(),
    {
        &self.device
    }

    /// Hands one byte to the device.
    fn tx_byte(&mut self, byte: u8)
        ensures
            final(self).path() == old(self).path(),
            final(self).trace() == old(self).trace().push(Op::Sent(byte)),
    {
        self.device.tx_byte(byte);
        self.trace = Ghost(self.trace@.push(Op::Sent(byte)));
    }

    /// Ends a chunk.
    fn flush(&mut self)
        ensures
            final(self).path() == old(self).path(),
            final(self).trace() == old(self).trace().push(Op::Flushed),
    {
        self.device.flush();
        self.trace = Ghost(self.trace@.push(Op::Flushed));
    }

    /// Transmits the whole payload, chunk by chunk, with a flush after
    /// each where the path has one. Returns the write as it ended: every
    /// byte handed out.
    pub fn write_bytes_assume_cs(&mut self, bytes: &[u8]) -> (end: UartWrite)
        requires
            old(self).path().wf(),
        ensures
            final(self).path() == old(self).path(),
            end == (UartWrite { sent: bytes.len(), ..start_of(old(self).path(), bytes.len()) }),
            final(self).trace() == old(self).trace() + ops_from(
                start_of(old(self).path(), bytes.len()),
                bytes@,
            ),
    {
        let mut write = UartWrite::new(self.path, bytes.len());
        let ghost start = write;
        proof {
            assert(old(self).trace() + ops_from(start, bytes@) =~= self.trace() + ops_from(
                write,
                bytes@,
            ));
        }
        loop
            invariant
                write.wf(),
                write.len == bytes@.len(),
                write.chunk == start.chunk,
                write.flush == start.flush,
                start == start_of(old(self).path(), bytes.len()),
                self.path() == old(self).path(),
                old(self).trace() + ops_from(start, bytes@) == self.trace() + ops_from(
                    write,
                    bytes@,
                ),
            decreases write.len - write.sent,
        {
            let ghost before = write;
            let ghost base = self.trace();
            match write.next() {
                None => {
                    proof {
                        assert(self.trace() + ops_from(write, bytes@) =~= self.trace());
                    }
                    return write;
                },
                Some((from, to)) => {
                    let mut i: usize = from;
                    while i < to
                        invariant
                            from <= i <= to <= bytes@.len(),
                            self.path() == old(self).path(),
                            self.trace() == base + Seq::new(
                                (i - from) as nat,
                                |k: int| Op::Sent(bytes@[from + k]),
                            ),
                        decreases to - i,
                    {
                        self.tx_byte(bytes[i]);
                        i = i + 1;
                        assert(self.trace() =~= base + Seq::new(
                            (i - from) as nat,
                            |k: int| Op::Sent(bytes@[from + k]),
                        ));
                    }
                    if write.flush {
                        self.flush();
                    }
                    proof {
                        let asked = chunk_ops(bytes@, from as int, to as int, write.flush);
                        assert(self.trace() =~= base + asked);
                        assert(ops_from(before, bytes@) == asked + ops_from(write, bytes@));
                        assert(self.trace() + ops_from(write, bytes@) =~= base + ops_from(
                            before,
                            bytes@,
                        ));
                    }
                },
            }
        }
    }
}

impl<D: Functions> Transport for Uart<D> {
    open spec fn wf(&self) -> bool {
        self.path().wf()
    }

    /// The transport stays on its path and asked of the device what whole
    /// writes ask, one after the other, whose payloads in a row are the
    /// bytes: each chunk's bytes, and a flush after each chunk where the
    /// path has one. So the device was handed the bytes, in order, after
    /// all that it had been handed before.
    open spec fn consumed(&self, bytes: Seq<u8>, after: Self) -> bool {
        &&& after.path() == self.path()
        &&& sent_bytes(after.trace()) == sent_bytes(self.trace()) + bytes
        &&& exists|payloads: Seq<Seq<u8>>|
            #[trigger] asked_writes(self.path(), bytes, self.trace(), after.trace(), payloads)
    }

    /// A write takes the payload whole.
    open spec fn takes(&self, len: nat) -> nat {
        len
    }

    open spec fn writes_for(&self, len: nat) -> nat {
        1
    }

    proof fn lemma_writes_for(&self, len: nat, taken: Seq<u8>, after: Self) {
    }

    proof fn lemma_consumed_nothing(&self) {
        let payloads = Seq::<Seq<u8>>::empty();
        assert(sent_bytes(self.trace()) + Seq::<u8>::empty() =~= sent_bytes(self.trace()));
        assert(self.trace() =~= self.trace() + writes_ops(self.path(), payloads));
        assert(asked_writes(
            self.path(),
            Seq::<u8>::empty(),
            self.trace(),
            self.trace(),
            payloads,
        ));
    }

    proof fn lemma_consumed_concat(&self, first: Seq<u8>, mid: Self, second: Seq<u8>, after: Self) {
        let path = self.path();
        assert(sent_bytes(self.trace()) + (first + second) =~= sent_bytes(self.trace()) + first
            + second);
        let p1 = choose|payloads: Seq<Seq<u8>>|
            #[trigger] asked_writes(path, first, self.trace(), mid.trace(), payloads);
        let p2 = choose|payloads: Seq<Seq<u8>>|
            #[trigger] asked_writes(path, second, mid.trace(), after.trace(), payloads);
        lemma_joined_concat(p1, p2);
        lemma_writes_ops_concat(path, p1, p2);
        assert forall|i: int| 0 <= i < (p1 + p2).len() implies #[trigger] fits((p1 + p2)[i]) by {
            if i < p1.len() {
                assert(fits(p1[i]));
            } else {
                assert(fits(p2[i - p1.len()]));
            }
        }
        assert(after.trace() =~= self.trace() + writes_ops(path, p1 + p2));
        assert(asked_writes(path, first + second, self.trace(), after.trace(), p1 + p2));
    }

    /// Always takes the payload whole.
    fn write(&mut self, bytes: &[u8]) -> (count: usize)
        ensures
            count == bytes@.len(),
    {
        let ghost path = self.path();
        let ghost start = start_of(path, bytes.len());
        let _ = self.write_bytes_assume_cs(bytes);
        proof {
            lemma_ops_send_every_byte(start, bytes@);
            lemma_sent_bytes_concat(old(self).trace(), ops_from(start, bytes@));
            assert(bytes@.subrange(0, bytes@.len() as int) =~= bytes@);
            let payloads = seq![bytes@];
            assert(fits(payloads[0]));
            assert(payloads.drop_last() =~= Seq::<Seq<u8>>::empty());
            assert(joined(payloads.drop_last()) =~= Seq::<u8>::empty());
            assert(joined(payloads) =~= bytes@);
            assert(writes_ops(path, payloads.drop_last()) =~= Seq::<Op>::empty());
            assert(writes_ops(path, payloads) =~= ops_from(start, bytes@));
            assert(asked_writes(
                path,
                bytes@.subrange(0, bytes@.len() as int),
                old(self).trace(),
                self.trace(),
                payloads,
            ));
        }
        bytes.len()
    }
}

/// Whole writes in a row ask of the device what the first of them ask and
/// then what the rest ask.
pub proof fn lemma_writes_ops_concat(path: UartPath, p1: Seq<Seq<u8>>, p2: Seq<Seq<u8>>)
    ensures
        writes_ops(path, p1 + p2) == writes_ops(path, p1) + writes_ops(path, p2),
    decreases p2.len(),
{
    if p2.len() == 0 {
        assert(p1 + p2 =~= p1);
        assert(writes_ops(path, p1) + writes_ops(path, p2) =~= writes_ops(path, p1));
    } else {
        lemma_writes_ops_concat(path, p1, p2.drop_last());
        assert((p1 + p2).drop_last() =~= p1 + p2.drop_last());
        assert((p1 + p2).last() == p2.last());
        assert(writes_ops(path, p1 + p2) =~= writes_ops(path, p1) + writes_ops(path, p2));
    }
}

/// The bytes among two runs of operations in a row are those of the first
/// and then those of the second.
pub proof fn lemma_sent_bytes_concat(first: Seq<Op>, second: Seq<Op>)
    ensures
        sent_bytes(first + second) == sent_bytes(first) + sent_bytes(second),
    decreases second.len(),
{
    if second.len() == 0 {
        assert(first + second =~= first);
        assert(sent_bytes(first) + sent_bytes(second) =~= sent_bytes(first));
    } else {
        lemma_sent_bytes_concat(first, second.drop_last());
        assert((first + second).drop_last() =~= first + second.drop_last());
        assert((first + second).last() == second.last());
        match second.last() {
            Op::Sent(byte) => {
                assert(sent_bytes(first + second) =~= sent_bytes(first) + sent_bytes(second));
            },
            Op::Flushed => {},
        }
    }
}

/// The bytes among the first `count` operations of a chunk are the first
/// `count` bytes of the chunk.
proof fn lemma_chunk_bytes(bytes: Seq<u8>, start: int, count: nat)
    requires
        0 <= start,
        start + count <= bytes.len(),
    ensures
        sent_bytes(Seq::new(count, |i: int| Op::Sent(bytes[start + i]))) == bytes.subrange(
            start,
            start + count,
        ),
    decreases count,
{
    let ops = Seq::new(count, |i: int| Op::Sent(bytes[start + i]));
    if count == 0 {
        assert(bytes.subrange(start, start + count) =~= Seq::<u8>::empty());
    } else {
        let fewer = (count - 1) as nat;
        lemma_chunk_bytes(bytes, start, fewer);
        assert(ops.drop_last() =~= Seq::new(fewer, |i: int| Op::Sent(bytes[start + i])));
        assert(ops.last() == Op::Sent(bytes[start + count - 1]));
        assert(bytes.subrange(start, start + fewer).push(bytes[start + count - 1])
            =~= bytes.subrange(start, start + count));
    }
}

/// The UART paths consume the whole payload: what a write asks of the
/// device from where it stands holds every byte still to go, each once and
/// in order.
pub proof fn lemma_ops_send_every_byte(w: UartWrite, bytes: Seq<u8>)
    requires
        w.wf(),
        bytes.len() == w.len,
    ensures
        sent_bytes(ops_from(w, bytes)) == bytes.subrange(w.sent as int, w.len as int),
    decreases w.len - w.sent,
{
    if w.sent >= w.len {
        assert(bytes.subrange(w.sent as int, w.len as int) =~= Seq::<u8>::empty());
    } else {
        let end = chunk_end(w.sent as int, w.len as int, w.chunk as int);
        let chunk = chunk_ops(bytes, w.sent as int, end, w.flush);
        let next = next_chunk(w).0;
        lemma_ops_send_every_byte(next, bytes);
        lemma_sent_bytes_concat(chunk, ops_from(next, bytes));
        lemma_chunk_bytes(bytes, w.sent as int, (end - w.sent) as nat);
        if w.flush {
            assert(chunk.drop_last() =~= Seq::new(
                (end - w.sent) as nat,
                |i: int| Op::Sent(bytes[w.sent + i]),
            ));
        }
        assert(bytes.subrange(w.sent as int, end) + bytes.subrange(end, w.len as int)
            =~= bytes.subrange(w.sent as int, w.len as int));
    }
}

/// What to flush after a chunk.
#[derive(Clone, Copy, Debug, PartialEq, Eq, Structural)]
pub enum FlushTarget {
    /// Nothing: the transmit routine waits by itself.
    Nothing,
    /// This channel.
    Fixed(u8),
    /// The channel that the ROM names when asked.
    AskRom,
}

/// The channel to flush after a chunk: the USB channel where the chip
/// prints over USB, else the channel that the ROM names.
pub open spec fn flush_target(flush: RomFlush, usb_print: bool) -> FlushTarget {
    match flush {
        RomFlush::Nothing => FlushTarget::Nothing,
        RomFlush::Channel { .. } => FlushTarget::AskRom,
        RomFlush::UsbOrChannel { usb_channel, .. } => if usb_print {
            FlushTarget::Fixed(usb_channel)
        } else {
            FlushTarget::AskRom
        },
    }
}

/// Picks what to flush, given the USB print flag as the device read it
/// (only a path with a USB channel looks at it).
pub fn flush_channel(flush: RomFlush, usb_print: bool) -> (target: FlushTarget)
    ensures
        target == flush_target(flush, usb_print),
{
    match flush {
        RomFlush::Nothing => FlushTarget::Nothing,
        RomFlush::Channel { .. } => FlushTarget::AskRom,
        RomFlush::UsbOrChannel { usb_channel, .. } => {
            if usb_print {
                FlushTarget::Fixed(usb_channel)
            } else {
                FlushTarget::AskRom
            }
        },
    }
}

/// Whether the transmit-done bit is set in what the status register said.
pub fn tx_done(status: u32, done_bit: u32) -> (done: bool)
    ensures
        done == (status & done_bit != 0),
{
    status & done_bit != 0
}

} // verus!
