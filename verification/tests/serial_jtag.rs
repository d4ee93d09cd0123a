use esp_println::chip::{serial_jtag_registers, Chip, SerialJtagRegisters};
use esp_println::serial_jtag::{
    ready, Action, Phase, Registers, SerialJtag, SerialJtagWrite, CHUNK_SIZE, COMMIT, READY_BIT,
    TIMEOUT_ITERATIONS,
};
use esp_println::Printer;

/// A peripheral that answers the first polls from a script and every later
/// one alike, and keeps what it was given.
struct ScriptedRegisters {
    script: Vec<bool>,
    later: bool,
    polls: usize,
    fifo: Vec<u32>,
    conf_writes: Vec<u32>,
    fifo_len_at_commit: Vec<usize>,
}

impl ScriptedRegisters {
    fn answering(script: &[bool], later: bool) -> Self {
        ScriptedRegisters {
            script: script.to_vec(),
            later,
            polls: 0,
            fifo: Vec::new(),
            conf_writes: Vec::new(),
            fifo_len_at_commit: Vec::new(),
        }
    }
}

impl Registers for ScriptedRegisters {
    fn read_conf(&mut self) -> u32 {
        let clear = if self.polls < self.script.len() { self.script[self.polls] } else { self.later };
        self.polls += 1;
        if clear {
            READY_BIT | 0b100
        } else {
            0b101
        }
    }

    fn write_conf(&mut self, value: u32) {
        self.conf_writes.push(value);
        self.fifo_len_at_commit.push(self.fifo.len());
    }

    fn write_fifo(&mut self, byte: u8) {
        self.fifo.push(byte as u32);
    }
}

fn payload(len: usize) -> Vec<u8> {
    (0..len).map(|i| (i * 3 % 256) as u8).collect()
}

fn as_words(bytes: &[u8]) -> Vec<u32> {
    bytes.iter().map(|b| *b as u32).collect()
}

#[test]
fn driver_sends_nothing_without_a_host() {
    let mut jtag = SerialJtag::new(ScriptedRegisters::answering(&[], false));
    let end = jtag.write_bytes_assume_cs(&payload(200));
    assert_eq!(jtag.registers().polls, 1);
    assert!(jtag.registers().fifo.is_empty());
    assert!(jtag.registers().conf_writes.is_empty());
    assert_eq!(end.sent, 0);
    assert!(end.is_stopped());
}

#[test]
fn driver_sends_every_chunk_to_a_ready_host() {
    let data = payload(130);
    let mut jtag = SerialJtag::new(ScriptedRegisters::answering(&[], true));
    let end = jtag.write_bytes_assume_cs(&data);
    assert_eq!(jtag.registers().fifo, as_words(&data));
    assert_eq!(jtag.registers().conf_writes, vec![COMMIT, COMMIT, COMMIT]);
    assert_eq!(jtag.registers().fifo_len_at_commit, vec![64, 128, 130]);
    assert_eq!(jtag.registers().polls, 4);
    assert_eq!(end.sent, 130);
    assert_eq!(end.flushed, 130);
}

#[test]
fn driver_polls_an_empty_payload_once() {
    let mut jtag = SerialJtag::new(ScriptedRegisters::answering(&[], true));
    let end = jtag.write_bytes_assume_cs(&[]);
    assert_eq!(jtag.registers().polls, 1);
    assert!(jtag.registers().fifo.is_empty());
    assert!(jtag.registers().conf_writes.is_empty());
    assert!(end.is_stopped());
}

#[test]
fn driver_gives_up_a_stalled_write_after_the_bounded_polls() {
    let data = payload(200);
    let mut jtag = SerialJtag::new(ScriptedRegisters::answering(&[true, true], false));
    let end = jtag.write_bytes_assume_cs(&data);
    // One poll before the first chunk, one that found it drained, then the stall.
    assert_eq!(jtag.registers().polls, 2 + 50_001);
    assert_eq!(jtag.registers().fifo, as_words(&data[..128]));
    assert_eq!(jtag.registers().conf_writes, vec![COMMIT, COMMIT]);
    assert_eq!(end.sent, 128);
    assert_eq!(end.flushed, 64);
    assert!(end.is_stopped());
}

#[test]
fn driver_with_smaller_chunks_commits_more_often() {
    let data = payload(70);
    let mut jtag = SerialJtag::with_chunk(ScriptedRegisters::answering(&[], true), 32);
    let end = jtag.write_bytes_assume_cs(&data);
    assert_eq!(jtag.registers().fifo, as_words(&data));
    assert_eq!(jtag.registers().fifo_len_at_commit, vec![32, 64, 70]);
    assert_eq!(jtag.registers().polls, 4);
    assert_eq!(end.chunk, 32);
}

#[test]
fn driver_waits_for_a_slow_host() {
    let data = payload(70);
    let mut script = vec![true];
    script.extend(vec![false; 1000]);
    let mut jtag = SerialJtag::new(ScriptedRegisters::answering(&script, true));
    let end = jtag.write_bytes_assume_cs(&data);
    assert_eq!(jtag.registers().fifo, as_words(&data));
    assert_eq!(jtag.registers().polls, 1 + 1000 + 1 + 1);
    assert_eq!(end.flushed, 70);
}

#[test]
fn printer_over_the_jtag_transport_writes_once() {
    let data = payload(100);
    let mut printer = Printer::new(SerialJtag::new(ScriptedRegisters::answering(&[], true)));
    printer.write_bytes(&data);
    assert_eq!(printer.transport.registers().fifo, as_words(&data));
    assert_eq!(printer.transport.registers().polls, 3);
    printer.write_bytes_assume_cs(&data[..10]);
    assert_eq!(printer.transport.registers().fifo.len(), 110);
}

#[test]
fn printer_polls_once_for_an_empty_payload() {
    let mut printer = Printer::new(SerialJtag::new(ScriptedRegisters::answering(&[], true)));
    printer.write_bytes_assume_cs(&[]);
    assert_eq!(printer.transport.registers().polls, 1);
    assert!(printer.transport.registers().fifo.is_empty());
    assert!(printer.transport.registers().conf_writes.is_empty());
}

#[test]
fn commit_is_the_only_word_written_to_the_control_register() {
    let mut jtag = SerialJtag::new(ScriptedRegisters::answering(&[], true));
    jtag.write_bytes_assume_cs(&payload(65));
    assert_eq!(jtag.registers().conf_writes, vec![0b001, 0b001]);
}

#[test]
fn only_the_ready_bit_of_the_status_word_counts() {
    // The scripted registers answer a busy poll with every bit but the ready bit of the
    // low three set, and a ready poll with the ready bit and another.
    let mut jtag = SerialJtag::new(ScriptedRegisters::answering(&[true, false, false, true], true));
    let data = payload(64);
    let end = jtag.write_bytes_assume_cs(&data);
    assert_eq!(jtag.registers().polls, 4);
    assert_eq!(jtag.registers().fifo, as_words(&data));
    assert_eq!(end.flushed, 64);
}

#[test]
fn printer_over_a_missing_host_drops_the_payload() {
    let mut printer = Printer::new(SerialJtag::new(ScriptedRegisters::answering(&[], false)));
    printer.write_bytes(&payload(100));
    assert!(printer.transport.registers().fifo.is_empty());
    assert_eq!(printer.transport.registers().polls, 1);
}

#[test]
fn constants_of_the_handshake() {
    assert_eq!(CHUNK_SIZE, 64);
    assert_eq!(TIMEOUT_ITERATIONS, 50_000);
    assert_eq!(COMMIT, 1);
}

#[test]
fn ready_reads_the_ready_bit() {
    assert_eq!(READY_BIT, 0b010);
    assert!(!ready(0));
    assert!(ready(0b010));
    assert!(!ready(0b101));
    assert!(ready(0xFFFF_FFFF));
}

#[test]
fn no_host_sends_nothing() {
    let mut write = SerialJtagWrite::new(200);
    assert_eq!(write.on_status(false), Action::Stop);
    assert_eq!(write.sent, 0);
    assert_eq!(write.flushed, 0);
    assert!(write.is_stopped());
    assert_eq!(write.on_status(true), Action::Stop);
    assert_eq!(write.sent, 0);
}

#[test]
fn empty_payload_stops_after_the_probe() {
    let mut write = SerialJtagWrite::new(0);
    assert_eq!(write.on_status(true), Action::Stop);
    assert!(write.is_stopped());
    assert_eq!(write.sent, 0);
}

#[test]
fn ready_host_takes_every_chunk() {
    let mut write = SerialJtagWrite::new(130);
    assert_eq!(write.phase, Phase::Probe);
    assert_eq!(write.on_status(true), Action::Send { start: 0, end: 64 });
    assert_eq!(write.phase, Phase::Drain);
    assert_eq!(write.on_status(false), Action::Poll);
    assert_eq!(write.on_status(false), Action::Poll);
    assert_eq!(write.timeout, TIMEOUT_ITERATIONS - 2);
    assert_eq!(write.on_status(true), Action::Send { start: 64, end: 128 });
    assert_eq!(write.timeout, TIMEOUT_ITERATIONS);
    assert_eq!(write.flushed, 64);
    assert_eq!(write.on_status(true), Action::Send { start: 128, end: 130 });
    assert!(!write.is_stopped());
    assert_eq!(write.on_status(true), Action::Stop);
    assert!(write.is_stopped());
    assert_eq!(write.sent, 130);
    assert_eq!(write.flushed, 130);
}

#[test]
fn payload_of_one_chunk_exactly() {
    let mut write = SerialJtagWrite::new(64);
    assert_eq!(write.on_status(true), Action::Send { start: 0, end: 64 });
    assert_eq!(write.on_status(true), Action::Stop);
    assert_eq!(write.flushed, 64);
}

#[test]
fn smaller_chunks_for_a_smaller_fifo() {
    let mut write = SerialJtagWrite::with_chunk(70, 32);
    assert_eq!(write.on_status(true), Action::Send { start: 0, end: 32 });
    assert_eq!(write.on_status(true), Action::Send { start: 32, end: 64 });
    assert_eq!(write.on_status(true), Action::Send { start: 64, end: 70 });
    assert_eq!(write.on_status(true), Action::Stop);
}

#[test]
fn stall_times_out_after_the_bounded_polls() {
    let mut write = SerialJtagWrite::new(200);
    assert_eq!(write.on_status(true), Action::Send { start: 0, end: 64 });
    assert_eq!(write.on_status(true), Action::Send { start: 64, end: 128 });
    let mut polls: usize = 0;
    loop {
        polls += 1;
        match write.on_status(false) {
            Action::Poll => {}
            Action::Stop => break,
            Action::Send { .. } => panic!("a busy FIFO was given bytes"),
        }
    }
    assert_eq!(polls, 50_001);
    assert!(write.is_stopped());
    assert_eq!(write.sent, 128);
    assert_eq!(write.flushed, 64);
    assert_eq!(write.on_status(true), Action::Stop);
    assert_eq!(write.sent, 128);
}

#[test]
fn drain_on_the_last_allowed_poll_goes_on() {
    let mut write = SerialJtagWrite::new(100);
    assert_eq!(write.on_status(true), Action::Send { start: 0, end: 64 });
    for _ in 0..TIMEOUT_ITERATIONS {
        assert_eq!(write.on_status(false), Action::Poll);
    }
    assert_eq!(write.timeout, 0);
    assert_eq!(write.on_status(true), Action::Send { start: 64, end: 100 });
    assert_eq!(write.timeout, TIMEOUT_ITERATIONS);
}

#[test]
fn registers_of_each_chip() {
    assert_eq!(
        serial_jtag_registers(Chip::Esp32c3),
        Some(SerialJtagRegisters { fifo: 0x6004_3000, conf: 0x6004_3004 })
    );
    assert_eq!(
        serial_jtag_registers(Chip::Esp32c6),
        Some(SerialJtagRegisters { fifo: 0x6000_F000, conf: 0x6000_F004 })
    );
    assert_eq!(serial_jtag_registers(Chip::Esp32h2), serial_jtag_registers(Chip::Esp32c6));
    assert_eq!(
        serial_jtag_registers(Chip::Esp32s3),
        Some(SerialJtagRegisters { fifo: 0x6003_8000, conf: 0x6003_8004 })
    );
    assert_eq!(serial_jtag_registers(Chip::Esp32), None);
    assert_eq!(serial_jtag_registers(Chip::Esp32c2), None);
    assert_eq!(serial_jtag_registers(Chip::Esp32s2), None);
    assert_eq!(serial_jtag_registers(Chip::Esp8266), None);
}
