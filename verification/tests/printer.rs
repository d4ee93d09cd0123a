use esp_println::rtt::ControlBlock;
use esp_println::Printer;

fn stream(len: usize) -> Vec<u8> {
    (0..len).map(|i| (i * 7 % 253) as u8).collect()
}

/// The storage that holds each byte of `data` at the place the producer put
/// it, the later ones over the earlier.
fn expected(capacity: usize, offset: usize, before: &[u8], data: &[u8]) -> Vec<u8> {
    let mut storage = before.to_vec();
    for (i, b) in data.iter().enumerate() {
        storage[(offset + i) % capacity] = *b;
    }
    storage
}

#[test]
fn new_printer_has_the_default_channel() {
    let printer = Printer::new(ControlBlock::new());
    assert_eq!(printer.transport.capacity(), 1024);
    assert_eq!(printer.transport.write_offset(), 0);
}

#[test]
fn write_bytes_assume_cs_flushes_the_whole_payload() {
    let mut printer = Printer::new(ControlBlock::with_capacity(8));
    printer.write_bytes_assume_cs(&[1, 2, 3, 4, 5]);
    printer.write_bytes_assume_cs(&[6, 7, 8, 9, 10]);
    assert_eq!(printer.transport.write_offset(), 2);
    assert_eq!(printer.transport.storage(), &[9, 10, 3, 4, 5, 6, 7, 8]);
}

#[test]
fn write_bytes_runs_inside_the_critical_section() {
    let mut printer = Printer::new(ControlBlock::with_capacity(8));
    printer.write_bytes(&[1, 2, 3]);
    assert_eq!(printer.transport.write_offset(), 3);
    assert_eq!(printer.transport.storage(), &[1, 2, 3, 0, 0, 0, 0, 0]);
    printer.write_bytes(&[4, 5, 6, 7, 8, 9]);
    assert_eq!(printer.transport.write_offset(), 1);
    assert_eq!(printer.transport.storage(), &[9, 2, 3, 4, 5, 6, 7, 8]);
}

#[test]
fn write_bytes_of_nothing_leaves_the_channel() {
    let mut printer = Printer::new(ControlBlock::with_capacity(4));
    printer.write_bytes(&[]);
    assert_eq!(printer.transport.write_offset(), 0);
    assert_eq!(printer.transport.storage(), &[0, 0, 0, 0]);
}

#[test]
fn overwrite_keeps_the_latest_bytes() {
    let mut printer = Printer::new(ControlBlock::with_capacity(8));
    printer.write_bytes_assume_cs(&[0xAA, 0xBB, 0xCC]);
    let data: Vec<u8> = (1..=30).collect();
    printer.write_bytes_assume_cs(&data);
    // 33 bytes have gone in: the offset is 33 mod 8, the oldest byte kept lies there.
    assert_eq!(printer.transport.write_offset(), 1);
    assert_eq!(printer.transport.storage(), &[30, 23, 24, 25, 26, 27, 28, 29]);
}

#[test]
fn overwrite_on_the_default_channel() {
    let mut printer = Printer::new(ControlBlock::new());
    printer.transport.set_read_offset(17);
    printer.write_bytes(&stream(700));
    let data = stream(3000);
    printer.write_bytes(&data);
    assert_eq!(printer.transport.write_offset(), (3700 % 1024) as u32);
    assert_eq!(printer.transport.read_offset(), 17);
    let want = expected(1024, 700, &[0u8; 1024], &data);
    assert_eq!(printer.transport.storage(), want.as_slice());
    let start = 3700 % 1024;
    let latest = &data[3000 - 1024..];
    assert_eq!(&printer.transport.storage()[start..], &latest[..1024 - start]);
    assert_eq!(&printer.transport.storage()[..start], &latest[1024 - start..]);
}

#[test]
fn write_str_writes_the_bytes_of_the_string() {
    let mut printer = Printer::new(ControlBlock::with_capacity(8));
    printer.write_str("hello");
    assert_eq!(printer.transport.write_offset(), 5);
    assert_eq!(printer.transport.storage(), b"hello\0\0\0");
    printer.write_str(" world");
    assert_eq!(printer.transport.write_offset(), 3);
    assert_eq!(printer.transport.storage(), b"rldlo wo");
}

#[test]
fn cutting_a_stream_into_calls_makes_no_difference() {
    let data = stream(50);
    let mut whole = Printer::new(ControlBlock::with_capacity(16));
    whole.write_bytes_assume_cs(&data);
    let mut parts = Printer::new(ControlBlock::with_capacity(16));
    parts.write_bytes_assume_cs(&data[..7]);
    parts.write_bytes_assume_cs(&data[7..30]);
    parts.write_bytes_assume_cs(&data[30..]);
    assert_eq!(whole.transport.storage(), parts.transport.storage());
    assert_eq!(whole.transport.write_offset(), parts.transport.write_offset());
    assert_eq!(whole.transport.write_offset(), 2);
}
