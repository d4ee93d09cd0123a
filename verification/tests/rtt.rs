use esp_println::rtt::{channel_name_bytes, ControlBlock, Pointers, BLOCK_LEN, BUFFER_SIZE};
use esp_println::transport::Transport;

fn pattern(len: usize) -> Vec<u8> {
    (0..len).map(|i| (i % 251) as u8 + 1).collect()
}

#[test]
fn new_block_is_empty() {
    let block = ControlBlock::new();
    assert_eq!(block.capacity(), BUFFER_SIZE);
    assert_eq!(block.capacity(), 1024);
    assert_eq!(block.write_offset(), 0);
    assert_eq!(block.read_offset(), 0);
    assert_eq!(block.storage(), vec![0u8; 1024].as_slice());
}

#[test]
fn write_without_wrap_lands_at_offset() {
    let mut block = ControlBlock::with_capacity(16);
    assert_eq!(block.write_bytes_internal(&[1, 2, 3]), 3);
    assert_eq!(block.write_offset(), 3);
    assert_eq!(block.write_bytes_internal(&[9, 8, 7, 6]), 4);
    assert_eq!(block.write_offset(), 7);
    assert_eq!(block.storage(), &[1, 2, 3, 9, 8, 7, 6, 0, 0, 0, 0, 0, 0, 0, 0, 0]);
}

#[test]
fn write_of_nothing_changes_nothing() {
    let mut block = ControlBlock::with_capacity(4);
    block.write_bytes_internal(&[5, 6]);
    assert_eq!(block.write_bytes_internal(&[]), 0);
    assert_eq!(block.write_offset(), 2);
    assert_eq!(block.storage(), &[5, 6, 0, 0]);
}

#[test]
fn write_that_reaches_the_end_wraps_offset_to_start() {
    let mut block = ControlBlock::with_capacity(4);
    assert_eq!(block.write_bytes_internal(&[1, 2, 3, 4]), 4);
    assert_eq!(block.write_offset(), 0);
    assert_eq!(block.storage(), &[1, 2, 3, 4]);
}

#[test]
fn write_takes_only_what_fits_before_the_end() {
    let mut block = ControlBlock::with_capacity(8);
    block.write_bytes_internal(&[1, 2, 3, 4, 5]);
    let count = block.write_bytes_internal(&[10, 11, 12, 13, 14]);
    assert_eq!(count, 3);
    assert_eq!(block.write_offset(), 0);
    assert_eq!(block.storage(), &[1, 2, 3, 4, 5, 10, 11, 12]);
    let count = block.write_bytes_internal(&[13, 14]);
    assert_eq!(count, 2);
    assert_eq!(block.write_offset(), 2);
    assert_eq!(block.storage(), &[13, 14, 3, 4, 5, 10, 11, 12]);
}

#[test]
fn wrap_takes_two_writes() {
    let mut block = ControlBlock::with_capacity(8);
    let data: Vec<u8> = (1..=11).collect();
    let first = block.write_bytes_internal(&data);
    assert_eq!(first, 8);
    assert_eq!(block.write_offset(), 0);
    let second = block.write_bytes_internal(&data[first..]);
    assert_eq!(second, 3);
    assert_eq!(block.write_offset(), 3);
    assert_eq!(block.storage(), &[9, 10, 11, 4, 5, 6, 7, 8]);
}

#[test]
fn wrap_on_the_default_block() {
    let mut block = ControlBlock::new();
    let data = pattern(1024 + 100);
    let first = block.write_bytes_internal(&data);
    assert_eq!(first, 1024);
    let second = block.write_bytes_internal(&data[first..]);
    assert_eq!(second, 100);
    assert_eq!(block.write_offset(), 100);
    assert_eq!(&block.storage()[..100], &data[1024..]);
    assert_eq!(&block.storage()[100..], &data[100..1024]);
}

#[test]
fn write_str_internal_takes_the_bytes_of_the_string() {
    let mut block = ControlBlock::with_capacity(4);
    assert_eq!(block.write_str_internal("abcdef"), 4);
    assert_eq!(block.storage(), b"abcd");
    assert_eq!(block.write_offset(), 0);
    assert_eq!(block.write_str_internal("ef"), 2);
    assert_eq!(block.storage(), b"efcd");
    assert_eq!(block.write_offset(), 2);
}

#[test]
fn transport_write_is_one_write_of_the_channel() {
    let mut block = ControlBlock::with_capacity(4);
    assert_eq!(Transport::write(&mut block, &[1, 2, 3]), 3);
    assert_eq!(Transport::write(&mut block, &[4, 5, 6]), 1);
    assert_eq!(block.storage(), &[1, 2, 3, 4]);
    assert_eq!(block.write_offset(), 0);
}

#[test]
fn read_offset_belongs_to_the_host() {
    let mut block = ControlBlock::with_capacity(8);
    block.set_read_offset(5);
    block.write_bytes_internal(&[1, 2, 3, 4, 5, 6, 7, 8]);
    block.write_bytes_internal(&[9, 10]);
    assert_eq!(block.read_offset(), 5);
    assert_eq!(block.write_offset(), 2);
    assert_eq!(block.storage(), &[9, 10, 3, 4, 5, 6, 7, 8]);
}

#[test]
fn discovery_block_layout() {
    let mut block = ControlBlock::new();
    block.write_bytes_internal(&[0x41, 0x42, 0x43]);
    block.set_read_offset(0x0102_0304);
    let bytes = block.to_bytes(Pointers::Narrow { name: 0x3FC8_0010, buffer: 0x3FC8_1000 });
    assert_eq!(bytes.len(), BLOCK_LEN + 8);
    assert_eq!(bytes.len(), 48);
    assert_eq!(&bytes[..10], b"SEGGER RTT");
    assert_eq!(&bytes[10..16], &[0u8; 6]);
    assert_eq!(&bytes[16..20], &[1, 0, 0, 0]);
    assert_eq!(&bytes[20..24], &[0, 0, 0, 0]);
    assert_eq!(&bytes[24..28], &[0x10, 0x00, 0xC8, 0x3F]);
    assert_eq!(&bytes[28..32], &[0x00, 0x10, 0xC8, 0x3F]);
    assert_eq!(&bytes[32..36], &[0x00, 0x04, 0x00, 0x00]);
    assert_eq!(&bytes[36..40], &[3, 0, 0, 0]);
    assert_eq!(&bytes[40..44], &[0x04, 0x03, 0x02, 0x01]);
    assert_eq!(&bytes[44..48], &[0, 0, 0, 0]);
}

#[test]
fn discovery_block_words_match_std_little_endian() {
    let block = ControlBlock::with_capacity(0x0001_2345);
    let bytes = block.to_bytes(Pointers::Narrow { name: u32::MAX, buffer: 0xDEAD_BEEF });
    assert_eq!(&bytes[24..28], &u32::MAX.to_le_bytes());
    assert_eq!(&bytes[28..32], &0xDEAD_BEEFu32.to_le_bytes());
    assert_eq!(&bytes[32..36], &0x0001_2345u32.to_le_bytes());
    assert_eq!(&bytes[16..20], &1i32.to_le_bytes());
    assert_eq!(&bytes[20..24], &0i32.to_le_bytes());
}

#[test]
fn discovery_block_with_wide_pointers() {
    let mut block = ControlBlock::with_capacity(256);
    block.write_bytes_internal(&[1, 2, 3, 4, 5]);
    block.set_read_offset(2);
    let name: u64 = 0x0102_0304_0506_0708;
    let buffer: u64 = 0xFFEE_DDCC_BBAA_9988;
    let bytes = block.to_bytes(Pointers::Wide { name, buffer });
    assert_eq!(bytes.len(), 56);
    assert_eq!(&bytes[..16], b"SEGGER RTT\0\0\0\0\0\0");
    assert_eq!(&bytes[16..20], &1i32.to_le_bytes());
    assert_eq!(&bytes[20..24], &0i32.to_le_bytes());
    assert_eq!(&bytes[24..32], &name.to_le_bytes());
    assert_eq!(&bytes[24..32], &[8, 7, 6, 5, 4, 3, 2, 1]);
    assert_eq!(&bytes[32..40], &buffer.to_le_bytes());
    assert_eq!(&bytes[40..44], &256u32.to_le_bytes());
    assert_eq!(&bytes[44..48], &5u32.to_le_bytes());
    assert_eq!(&bytes[48..52], &2u32.to_le_bytes());
    assert_eq!(&bytes[52..56], &[0, 0, 0, 0]);
}

#[test]
fn channel_name_is_terminal_with_a_zero() {
    assert_eq!(channel_name_bytes(), b"Terminal\0".to_vec());
}
