//! The register and ROM addresses of each supported chip.
//!
//! Host tooling and the ROM firmware fix these numbers; the tables here
//! repeat them once, for the drivers of every transport.

use vstd::prelude::*;

verus! {

/// The chips that the transports know.
#[derive(Clone, Copy, Debug, PartialEq, Eq, Structural)]
pub enum Chip {
    Esp32,
    Esp32c2,
    Esp32c3,
    Esp32c6,
    Esp32h2,
    Esp32s2,
    Esp32s3,
    Esp8266,
}

/// The two registers of the JTAG-serial peripheral.
#[derive(Clone, Copy, Debug, PartialEq, Eq, Structural)]
pub struct SerialJtagRegisters {
    /// The FIFO register: each write queues one byte.
    pub fifo: u32,
    /// The status and control register.
    pub conf: u32,
}

/// How a chip flushes its ROM UART after a chunk.
#[derive(Clone, Copy, Debug, PartialEq, Eq, Structural)]
pub enum RomFlush {
    /// The transmit routine waits by itself.
    Nothing,
    /// Flush the channel that the ROM names.
    Channel { tx_flush: u32, get_channel: u32 },
    /// Flush the USB channel where the flag at `usb_print` is set, else the
    /// channel that the ROM names.
    UsbOrChannel { tx_flush: u32, get_channel: u32, usb_print: u32, usb_channel: u8 },
}

/// How a chip's UART takes bytes.
#[derive(Clone, Copy, Debug, PartialEq, Eq, Structural)]
pub enum UartPath {
    /// One call of the ROM's transmit routine per byte, nothing else.
    Rom { tx_one_char: u32 },
    /// The ROM's transmit routine per byte, and a flush after each chunk.
    RomChunked { tx_one_char: u32, chunk: usize, flush: RomFlush },
    /// Bytes go into the FIFO register a chunk at a time; after each chunk
    /// wait for the done bit in `status`, then write it to `clear`.
    Fifo { fifo: u32, status: u32, clear: u32, done_bit: u32, chunk: usize },
}

impl UartPath {
    /// A path that cuts the payload into chunks has chunks of at least one
    /// byte.
    pub open spec fn wf(&self) -> bool {
        match *self {
            UartPath::Rom { .. } => true,
            UartPath::RomChunked { chunk, .. } => chunk > 0,
            UartPath::Fifo { chunk, .. } => chunk > 0,
        }
    }
}

/// The JTAG-serial registers of each chip that has the peripheral.
pub open spec fn serial_jtag_table(chip: Chip) -> Option<SerialJtagRegisters> {
    match chip {
        Chip::Esp32c3 => Some(SerialJtagRegisters { fifo: 0x6004_3000, conf: 0x6004_3004 }),
        Chip::Esp32c6 | Chip::Esp32h2 => Some(
            SerialJtagRegisters { fifo: 0x6000_F000, conf: 0x6000_F004 },
        ),
        Chip::Esp32s3 => Some(SerialJtagRegisters { fifo: 0x6003_8000, conf: 0x6003_8004 }),
        _ => None,
    }
}

/// The UART path of each chip.
pub open spec fn uart_table(chip: Chip) -> UartPath {
    match chip {
        Chip::Esp32 | Chip::Esp8266 => UartPath::Rom { tx_one_char: 0x4000_9200 },
        Chip::Esp32s2 => UartPath::Fifo {
            fifo: 0x3f40_0000,
            status: 0x3f40_0004,
            clear: 0x3f40_0010,
            done_bit: 0x4000,
            chunk: 64,
        },
        Chip::Esp32c2 => UartPath::RomChunked {
            tx_one_char: 0x4000_005C,
            chunk: 32,
            flush: RomFlush::Nothing,
        },
        Chip::Esp32c3 => UartPath::RomChunked {
            tx_one_char: 0x4000_0068,
            chunk: 32,
            flush: RomFlush::UsbOrChannel {
                tx_flush: 0x4000_0080,
                get_channel: 0x4000_058C,
                usb_print: 0x3FCD_FFD0,
                usb_channel: 3,
            },
        },
        Chip::Esp32s3 => UartPath::RomChunked {
            tx_one_char: 0x4000_0648,
            chunk: 32,
            flush: RomFlush::UsbOrChannel {
                tx_flush: 0x4000_0690,
                get_channel: 0x4000_1A58,
                usb_print: 0x3FCE_FFB8,
                usb_channel: 4,
            },
        },
        Chip::Esp32c6 | Chip::Esp32h2 => UartPath::RomChunked {
            tx_one_char: 0x4000_0058,
            chunk: 32,
            flush: RomFlush::Channel { tx_flush: 0x4000_0074, get_channel: 0x4000_003C },
        },
    }
}

/// The JTAG-serial registers of `chip`, or `None` where the chip has no
/// such peripheral.
pub fn serial_jtag_registers(chip: Chip) -> (registers: Option<SerialJtagRegisters>)
    ensures
        registers == serial_jtag_table(chip),
        registers is Some <==> (chip == Chip::Esp32c3 || chip == Chip::Esp32c6 || chip
            == Chip::Esp32h2 || chip == Chip::Esp32s3),
{
    match chip {
        Chip::Esp32c3 => Some(SerialJtagRegisters { fifo: 0x6004_3000, conf: 0x6004_3004 }),
        Chip::Esp32c6 => Some(SerialJtagRegisters { fifo: 0x6000_F000, conf: 0x6000_F004 }),
        Chip::Esp32h2 => Some(SerialJtagRegisters { fifo: 0x6000_F000, conf: 0x6000_F004 }),
        Chip::Esp32s3 => Some(SerialJtagRegisters { fifo: 0x6003_8000, conf: 0x6003_8004 }),
        _ => None,
    }
}

/// The UART path of `chip`.
pub fn uart_path(chip: Chip) -> (path: UartPath)
    ensures
        path == uart_table(chip),
        path.wf(),
{
    match chip {
        Chip::Esp32 => UartPath::Rom { tx_one_char: 0x4000_9200 },
        Chip::Esp8266 => UartPath::Rom { tx_one_char: 0x4000_9200 },
        Chip::Esp32s2 => UartPath::Fifo {
            fifo: 0x3f40_0000,
            status: 0x3f40_0004,
            clear: 0x3f40_0010,
            done_bit: 0x4000,
            chunk: 64,
        },
        Chip::Esp32c2 => UartPath::RomChunked {
            tx_one_char: 0x4000_005C,
            chunk: 32,
            flush: RomFlush::Nothing,
        },
        Chip::Esp32c3 => UartPath::RomChunked {
            tx_one_char: 0x4000_0068,
            chunk: 32,
            flush: RomFlush::UsbOrChannel {
                tx_flush: 0x4000_0080,
                get_channel: 0x4000_058C,
                usb_print: 0x3FCD_FFD0,
                usb_channel: 3,
            },
        },
        Chip::Esp32s3 => UartPath::RomChunked {
            tx_one_char: 0x4000_0648,
            chunk: 32,
            flush: RomFlush::UsbOrChannel {
                tx_flush: 0x4000_0690,
                get_channel: 0x4000_1A58,
                usb_print: 0x3FCE_FFB8,
                usb_channel: 4,
            },
        },
        Chip::Esp32c6 => UartPath::RomChunked {
            tx_one_char: 0x4000_0058,
            chunk: 32,
            flush: RomFlush::Channel { tx_flush: 0x4000_0074, get_channel: 0x4000_003C },
        },
        Chip::Esp32h2 => UartPath::RomChunked {
            tx_one_char: 0x4000_0058,
            chunk: 32,
            flush: RomFlush::Channel { tx_flush: 0x4000_0074, get_channel: 0x4000_003C },
        },
    }
}

} // verus!
