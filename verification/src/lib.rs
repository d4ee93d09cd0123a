//! Interrupt-safe byte output for small microcontrollers.
//!
//! The crate holds the logic of each transport: the host-readable ring
//! buffer with its discovery block, the handshake of the JTAG-serial FIFO,
//! the chunking of the UART paths and the lock of the frame logger. What
//! touches registers and ROM routines reaches the crate through small
//! traits that the embedding program implements.

use vstd::prelude::*;
use vstd::slice::slice_subrange;
use vstd::string::StringSliceAdditionalSpecFns;
use crate::transport::Transport;

pub mod chip;
pub mod chunks;
pub mod frame;
pub mod rtt;
pub mod serial_jtag;
pub mod transport;
pub mod uart;

verus! {

/// The write sink over the chosen transport.
pub struct Printer<T: Transport> {
    pub transport: T,
    /// How many writes the transport was offered so far.
    pub writes: Ghost<nat>,
}

impl<T: Transport> Printer<T> {
    /// A printer over `transport`.
    pub fn new(transport: T) -> (printer: Self)
        ensures
            printer.transport == transport,
            printer.writes@ == 0,
    {
        Printer { transport, writes: Ghost(0) }
    }

    /// Writes the bytes of a string inside a critical section.
    pub fn write_str(&mut self, s: &str)
        requires
            old(self).transport.wf(),
        ensures
            final(self).transport.wf(),
            old(self).transport.consumed(s.spec_bytes(), final(self).transport),
            final(self).writes@ == old(self).writes@ + old(self).transport.writes_for(
                s.spec_bytes().len(),
            ),
    {
        self.write_bytes(s.as_bytes())
    }

    /// Writes the whole payload inside a critical section.
    pub fn write_bytes(&mut self, bytes: &[u8])
        requires
            old(self).transport.wf(),
        ensures
            final(self).transport.wf(),
            old(self).transport.consumed(bytes@, final(self).transport),
            final(self).writes@ == old(self).writes@ + old(self).transport.writes_for(
                bytes@.len(),
            ),
    {
        with(self, bytes)
    }

    /// Writes the whole payload; the caller holds the critical section.
    ///
    /// The transport is offered the payload, and then what is left, until
    /// it has taken every byte. Nothing waits for a reader: the ring buffer
    /// overwrites what the host has not read, and the FIFO paths drop what
    /// a missing host cannot take.
    pub fn write_bytes_assume_cs(&mut self, bytes: &[u8])
        requires
            old(self).transport.wf(),
        ensures
            final(self).transport.wf(),
            old(self).transport.consumed(bytes@, final(self).transport),
            final(self).writes@ == old(self).writes@ + old(self).transport.writes_for(
                bytes@.len(),
            ),
    {
        let ghost start = self.transport;
        let mut done: usize = self.transport.write(bytes);
        proof {
            self.writes@ = self.writes@ + 1;
            start.lemma_writes_for(
                bytes@.len(),
                bytes@.subrange(0, done as int),
                self.transport,
            );
        }
        while done < bytes.len()
            invariant
                done <= bytes@.len(),
                start.wf(),
                self.transport.wf(),
                start.consumed(bytes@.subrange(0, done as int), self.transport),
                done == bytes@.len() ==> self.writes@ == old(self).writes@ + start.writes_for(
                    bytes@.len(),
                ),
                done < bytes@.len() ==> self.writes@ + self.transport.writes_for(
                    (bytes@.len() - done) as nat,
                ) == old(self).writes@ + start.writes_for(bytes@.len()),
            decreases bytes@.len() - done,
        {
            let rest = slice_subrange(bytes, done, bytes.len());
            let ghost mid = self.transport;
            let count = self.transport.write(rest);
            proof {
                self.writes@ = self.writes@ + 1;
                mid.lemma_writes_for(
                    rest@.len(),
                    rest@.subrange(0, count as int),
                    self.transport,
                );
                start.lemma_consumed_concat(
                    bytes@.subrange(0, done as int),
                    mid,
                    rest@.subrange(0, count as int),
                    self.transport,
                );
                assert(bytes@.subrange(0, done as int) + rest@.subrange(0, count as int)
                    =~= bytes@.subrange(0, done + count));
            }
            done = done + count;
        }
        proof {
            assert(bytes@.subrange(0, done as int) =~= bytes@);
        }
    }
}

/// Runs the printer's write inside `critical_section::with`, which acquires
/// the section, calls the closure once and releases the section. The
/// contract is that of the write it calls.
#[verifier::external_body]
fn with<T: Transport>(printer: &mut Printer<T>, bytes: &[u8])
    requires
        old(printer).transport.wf(),
    ensures
        final(printer).transport.wf(),
        old(printer).transport.consumed(bytes@, final(printer).transport),
        final(printer).writes@ == old(printer).writes@ + old(printer).transport.writes_for(
            bytes@.len(),
        ),
{
    critical_section::with(|_| printer.write_bytes_assume_cs(bytes))
}

} // verus!
