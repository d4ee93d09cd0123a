//! The frame logger: a lock around the frame encoder.
//!
//! The encoder is not reentrant, so one frame is open at a time. The lock
//! goes from idle to held and back. While it is held it keeps the restore
//! state of the critical section that the embedding program acquired for
//! the frame, and gives it back, untouched, on release. What the encoder
//! makes of a frame goes out through the printer.

use vstd::prelude::*;
use critical_section::RestoreState;
use defmt::Encoder;
use crate::Printer;
use crate::transport::Transport;

verus! {

/// The restore state of a critical section: opaque, carried from the
/// acquire to the matching release.
#[verifier::external_type_specification]
#[verifier::external_body]
pub struct ExRestoreState(critical_section::RestoreState);

/// The frame encoder: opaque, it keeps what it needs between the calls of
/// one frame.
#[verifier::external_type_specification]
#[verifier::external_body]
pub struct ExEncoder(defmt::Encoder);

/// `Encoder::new`: an encoder that has encoded nothing yet.
#[verifier::external_body]
fn new_encoder() -> (encoder: Encoder) {
    Encoder::new()
}

/// `Encoder::start_frame`: hands what opens a frame on the wire to the
/// closure, in zero or more calls. Each call writes through the printer, so
/// the printer's transport has taken some bytes, in a row.
#[verifier::external_body]
fn start_frame<T: Transport>(encoder: &mut Encoder, printer: &mut Printer<T>)
    requires
        old(printer).transport.wf(),
    ensures
        final(printer).transport.wf(),
        exists|encoded: Seq<u8>|
            old(printer).transport.consumed(encoded, final(printer).transport),
{
    encoder.start_frame(|bytes| do_write(printer, bytes))
}

/// `Encoder::end_frame`: hands what closes the frame on the wire to the
/// closure, in zero or more calls. Each call writes through the printer, so
/// the printer's transport has taken some bytes, in a row.
#[verifier::external_body]
fn end_frame<T: Transport>(encoder: &mut Encoder, printer: &mut Printer<T>)
    requires
        old(printer).transport.wf(),
    ensures
        final(printer).transport.wf(),
        exists|encoded: Seq<u8>|
            old(printer).transport.consumed(encoded, final(printer).transport),
{
    encoder.end_frame(|bytes| do_write(printer, bytes))
}

/// `Encoder::write`: encodes `data` and hands what is ready for the wire to
/// the closure, in zero or more calls. Each call writes through the
/// printer, so the printer's transport has taken some bytes, in a row.
#[verifier::external_body]
fn encode<T: Transport>(encoder: &mut Encoder, data: &[u8], printer: &mut Printer<T>)
    requires
        old(printer).transport.wf(),
    ensures
        final(printer).transport.wf(),
        exists|encoded: Seq<u8>|
            old(printer).transport.consumed(encoded, final(printer).transport),
{
    encoder.write(data, |bytes| do_write(printer, bytes))
}

/// The bytes that open a frame on the wire: not valid UTF-8, so that a
/// reader can tell a frame from text. Raw framing has none.
pub open spec fn frame_start(raw: bool) -> Seq<u8> {
    if raw {
        Seq::<u8>::empty()
    } else {
        seq![0xFFu8, 0x00u8]
    }
}

/// The frame logger: the lock and the encoder that it guards.
pub struct Logger {
    raw: bool,
    restore: Option<RestoreState>,
    encoder: Encoder,
    /// The frame data handed to the encoder since the frame was opened.
    fed: Ghost<Seq<u8>>,
}

impl Logger {
    /// Whether a frame is open.
    pub closed spec fn taken(&self) -> bool {
        self.restore is Some
    }

    /// An acquire is in order: the lock is idle. On a held lock it is a
    /// fault of the caller, and the embedding program aborts.
    pub open spec fn may_acquire(&self) -> bool {
        !self.taken()
    }

    /// The restore state kept for the release, while a frame is open.
    pub closed spec fn restore(&self) -> Option<RestoreState> {
        self.restore
    }

    /// Whether frames go out without a start marker.
    pub closed spec fn raw(&self) -> bool {
        self.raw
    }

    /// The frame data handed to the encoder since the frame was opened, in
    /// the order of the writes.
    pub closed spec fn fed(&self) -> Seq<u8> {
        self.fed@
    }

    /// An idle lock. With `raw` set, frames carry no start marker.
    pub fn new(raw: bool) -> (logger: Self)
        ensures
            !logger.taken(),
            logger.restore() is None,
            logger.raw() == raw,
            logger.fed() == Seq::<u8>::empty(),
    {
        Logger { raw, restore: None, encoder: new_encoder(), fed: Ghost(Seq::empty()) }
    }

    /// Whether a frame is open. An acquire is in order only where this says
    /// no: the embedding program aborts on a reentrant one.
    pub fn is_taken(&self) -> (taken: bool)
        ensures
            taken == self.taken(),
            taken == (self.restore() is Some),
    {
        self.restore.is_some()
    }

    /// Opens a frame: takes the lock, keeps `restore` for the release,
    /// writes the start marker and then what the encoder puts at the start
    /// of a frame. The caller has acquired the critical section that
    /// `restore` belongs to, and the lock is idle.
    pub fn acquire<T: Transport>(&mut self, restore: RestoreState, printer: &mut Printer<T>)
        requires
            old(self).may_acquire(),
            old(printer).transport.wf(),
        ensures
            final(self).taken(),
            !final(self).may_acquire(),
            final(self).restore() == Some(restore),
            final(self).raw() == old(self).raw(),
            final(self).fed() == Seq::<u8>::empty(),
            final(printer).transport.wf(),
            exists|encoded: Seq<u8>|
                old(printer).transport.consumed(
                    frame_start(old(self).raw()) + encoded,
                    final(printer).transport,
                ),
    {
        self.restore = Some(restore);
        self.fed = Ghost(Seq::empty());
        if self.raw {
            let nothing: [u8; 0] = [];
            assert(nothing@ =~= frame_start(true));
            do_write(printer, nothing.as_slice());
        } else {
            let marker: [u8; 2] = [0xFF, 0x00];
            assert(marker@ =~= frame_start(false));
            do_write(printer, marker.as_slice());
        }
        let ghost marked = printer.transport;
        start_frame(&mut self.encoder, printer);
        proof {
            let encoded = choose|encoded: Seq<u8>|
                marked.consumed(encoded, printer.transport);
            assert(marked.consumed(encoded, printer.transport));
            assert(old(printer).transport.consumed(frame_start(self.raw), marked));
            old(printer).transport.lemma_consumed_concat(
                frame_start(self.raw),
                marked,
                encoded,
                printer.transport,
            );
            assert(old(printer).transport.consumed(
                frame_start(old(self).raw()) + encoded,
                printer.transport,
            ));
        }
    }

    /// Writes frame data: the encoder is handed `bytes`, once, and what it
    /// has ready for the wire goes out through the printer. The lock is
    /// left as it is: held, where a frame is open.
    pub fn write<T: Transport>(&mut self, bytes: &[u8], printer: &mut Printer<T>)
        requires
            old(printer).transport.wf(),
        ensures
            final(self).taken() == old(self).taken(),
            final(self).restore() == old(self).restore(),
            final(self).raw() == old(self).raw(),
            final(self).fed() == old(self).fed() + bytes@,
            final(printer).transport.wf(),
            exists|encoded: Seq<u8>|
                old(printer).transport.consumed(encoded, final(printer).transport),
    {
        self.feed(bytes, printer);
    }

    /// Hands `data` to the encoder and keeps it in the record of what the
    /// frame was fed.
    fn feed<T: Transport>(&mut self, data: &[u8], printer: &mut Printer<T>)
        requires
            old(printer).transport.wf(),
        ensures
            final(self).taken() == old(self).taken(),
            final(self).restore() == old(self).restore(),
            final(self).raw() == old(self).raw(),
            final(self).fed() == old(self).fed() + data@,
            final(printer).transport.wf(),
            exists|encoded: Seq<u8>|
                old(printer).transport.consumed(encoded, final(printer).transport),
    {
        encode(&mut self.encoder, data, printer);
        self.fed = Ghost(self.fed@ + data@);
    }

    /// Closes the frame: writes what the encoder puts at its end, frees the
    /// lock and hands back the restore state that the acquire was given,
    /// for the release of the critical section.
    pub fn release<T: Transport>(&mut self, printer: &mut Printer<T>) -> (restore: RestoreState)
        requires
            old(self).taken(),
            old(printer).transport.wf(),
        ensures
            !final(self).taken(),
            final(self).may_acquire(),
            final(self).restore() is None,
            final(self).raw() == old(self).raw(),
            final(self).fed() == Seq::<u8>::empty(),
            old(self).restore() == Some(restore),
            final(printer).transport.wf(),
            exists|encoded: Seq<u8>|
                old(printer).transport.consumed(encoded, final(printer).transport),
    {
        end_frame(&mut self.encoder, printer);
        let restore = self.restore.unwrap();
        self.restore = None;
        self.fed = Ghost(Seq::empty());
        restore
    }

    /// Nothing is buffered, so there is nothing to flush.
    pub fn flush(&self) {
    }
}

/// A held lock refuses a second acquire: from an acquire until the release
/// that follows it, through every write in between, no acquire is in order.
/// `held` is the lock after an acquire, `later` the lock after any number
/// of writes since.
pub proof fn lemma_reentrant_acquire_refused(held: Logger, later: Logger)
    requires
        held.taken(),
        later.taken() == held.taken(),
    ensures
        !held.may_acquire(),
        !later.may_acquire(),
{
}

/// Writes frame bytes through the printer; the caller holds the critical
/// section.
pub fn do_write<T: Transport>(printer: &mut Printer<T>, bytes: &[u8])
    requires
        old(printer).transport.wf(),
    ensures
        final(printer).transport.wf(),
        old(printer).transport.consumed(bytes@, final(printer).transport),
{
    printer.write_bytes_assume_cs(bytes)
}

} // verus!
