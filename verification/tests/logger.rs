use critical_section::RestoreState;
use esp_println::frame::{do_write, Logger};
use esp_println::rtt::ControlBlock;
use esp_println::Printer;

#[test]
fn new_logger_is_idle() {
    assert!(!Logger::new(false).is_taken());
    assert!(!Logger::new(true).is_taken());
}

#[test]
fn acquire_takes_the_lock_and_writes_the_frame_start() {
    let mut printer = Printer::new(ControlBlock::with_capacity(8));
    let mut logger = Logger::new(false);
    logger.acquire(RestoreState::invalid(), &mut printer);
    assert!(logger.is_taken());
    // The marker, then the separator that the encoder puts before its first frame.
    assert_eq!(printer.transport.write_offset(), 3);
    assert_eq!(printer.transport.storage(), &[0xFF, 0x00, 0x00, 0, 0, 0, 0, 0]);
}

#[test]
fn raw_frames_have_no_start_marker() {
    let mut printer = Printer::new(ControlBlock::with_capacity(8));
    printer.write_bytes_assume_cs(&[7, 7]);
    let mut logger = Logger::new(true);
    logger.acquire(RestoreState::invalid(), &mut printer);
    assert!(logger.is_taken());
    assert_eq!(printer.transport.write_offset(), 3);
    assert_eq!(printer.transport.storage(), &[7, 7, 0x00, 0, 0, 0, 0, 0]);
}

#[test]
fn release_frees_the_lock_and_returns_the_restore_state() {
    let mut printer = Printer::new(ControlBlock::with_capacity(8));
    let mut logger = Logger::new(false);
    let given = RestoreState::invalid();
    logger.acquire(given, &mut printer);
    let back = logger.release(&mut printer);
    assert!(!logger.is_taken());
    assert_eq!(format!("{:?}", back), format!("{:?}", given));
    // The encoder closes the empty frame with a separator.
    assert_eq!(printer.transport.write_offset(), 4);
    logger.flush();
    assert_eq!(printer.transport.write_offset(), 4);
}

#[test]
fn lock_can_be_taken_again_after_release() {
    let mut printer = Printer::new(ControlBlock::with_capacity(8));
    let mut logger = Logger::new(false);
    logger.acquire(RestoreState::invalid(), &mut printer);
    assert!(logger.is_taken());
    logger.release(&mut printer);
    assert!(!logger.is_taken());
    logger.acquire(RestoreState::invalid(), &mut printer);
    assert!(logger.is_taken());
    assert_eq!(printer.transport.write_offset(), 6);
    assert_eq!(printer.transport.storage(), &[0xFF, 0x00, 0x00, 0x00, 0xFF, 0x00, 0, 0]);
}

#[test]
fn frame_data_goes_out_encoded() {
    let mut printer = Printer::new(ControlBlock::with_capacity(16));
    let mut logger = Logger::new(false);
    logger.acquire(RestoreState::invalid(), &mut printer);
    logger.write(&[1, 2, 3, 0, 5], &mut printer);
    assert!(logger.is_taken());
    assert_eq!(printer.transport.write_offset(), 7);
    logger.release(&mut printer);
    assert_eq!(printer.transport.write_offset(), 9);
    assert_eq!(
        printer.transport.storage(),
        &[0xFF, 0x00, 0x00, 1, 2, 3, 5, 0x68, 0x00, 0, 0, 0, 0, 0, 0, 0]
    );
}

#[test]
fn write_leaves_the_lock_as_it_is() {
    let mut printer = Printer::new(ControlBlock::with_capacity(16));
    let mut logger = Logger::new(true);
    logger.write(&[9, 8, 7], &mut printer);
    assert!(!logger.is_taken());
    logger.acquire(RestoreState::invalid(), &mut printer);
    logger.write(&[6], &mut printer);
    assert!(logger.is_taken());
}

#[test]
fn do_write_goes_through_the_printer() {
    let mut printer = Printer::new(ControlBlock::with_capacity(4));
    do_write(&mut printer, &[1, 2, 3, 4, 5, 6]);
    assert_eq!(printer.transport.write_offset(), 2);
    assert_eq!(printer.transport.storage(), &[5, 6, 3, 4]);
}
