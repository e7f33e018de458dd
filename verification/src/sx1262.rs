//! Receive-only rules for the Waveshare SX1262 868/915 MHz HAT.
//!
//! This module intentionally contains no transmit opcode and no transmit-facing
//! API. It builds the commands that a driver sends over SPI and reads the replies
//! that come back; the pins and the bus are the driver's.

pub mod laws;

use vstd::prelude::*;
use vstd::slice::slice_subrange;
use vstd::string::StringExecFns;

use crate::text;
use crate::text::{ending_numbers, push_hex};

verus! {

/// Configured `LoRa` center frequency.
pub const FREQUENCY_HZ: u32 = 868_100_000;

/// Configured `LoRa` spreading factor.
pub const SPREADING_FACTOR: u8 = 7;

/// Configured `LoRa` bandwidth in hertz.
pub const BANDWIDTH_HZ: u32 = 125_000;

/// Maximum application payload accepted by the SX1262 in explicit-header mode.
pub const MAX_PAYLOAD_LEN: usize = 255;

pub const OP_SET_STANDBY: u8 = 0x80;

pub const OP_SET_RX: u8 = 0x82;

pub const OP_SET_PACKET_TYPE: u8 = 0x8a;

pub const OP_SET_RF_FREQUENCY: u8 = 0x86;

pub const OP_SET_BUFFER_BASE_ADDRESS: u8 = 0x8f;

pub const OP_SET_MODULATION_PARAMS: u8 = 0x8b;

pub const OP_SET_PACKET_PARAMS: u8 = 0x8c;

pub const OP_SET_DIO_IRQ_PARAMS: u8 = 0x08;

pub const OP_GET_IRQ_STATUS: u8 = 0x12;

pub const OP_CLEAR_IRQ_STATUS: u8 = 0x02;

pub const OP_GET_RX_BUFFER_STATUS: u8 = 0x13;

pub const OP_GET_PACKET_STATUS: u8 = 0x14;

pub const OP_GET_STATUS: u8 = 0xc0;

pub const OP_GET_PACKET_TYPE: u8 = 0x11;

pub const OP_GET_DEVICE_ERRORS: u8 = 0x17;

pub const OP_CALIBRATE_IMAGE: u8 = 0x98;

pub const OP_SET_REGULATOR_MODE: u8 = 0x96;

pub const OP_SET_DIO2_AS_RF_SWITCH: u8 = 0x9d;

pub const OP_SET_STOP_RX_TIMER_ON_PREAMBLE: u8 = 0x9f;

pub const OP_SET_LORA_SYMBOL_TIMEOUT: u8 = 0xa0;

pub const OP_WRITE_REGISTER: u8 = 0x0d;

pub const OP_READ_REGISTER: u8 = 0x1d;

pub const OP_READ_BUFFER: u8 = 0x1e;

pub const PACKET_TYPE_LORA: u8 = 0x01;

pub const STANDBY_RC: u8 = 0x00;

pub const REGULATOR_LDO: u8 = 0x00;

/// Mode bits of the status byte in standby on the RC oscillator.
pub const MODE_STANDBY_RC: u8 = 0x20;

pub const IRQ_RX_DONE: u16 = 0x0002;

pub const IRQ_HEADER_ERROR: u16 = 0x0020;

pub const IRQ_CRC_ERROR: u16 = 0x0040;

pub const IRQ_RX_TX_TIMEOUT: u16 = 0x0200;

/// Every interrupt that ends a reception.
pub const IRQ_TERMINAL_MASK: u16 = 0x0262;

pub const REGISTER_LORA_SYNC_WORD: u16 = 0x0740;

pub const REGISTER_IQ_POLARITY: u16 = 0x0736;

pub const REGISTER_RX_GAIN: u16 = 0x08ac;

/// The private `LoRa` sync word.
pub const PRIVATE_SYNC_WORD: u16 = 0x1424;

pub const IQ_NORMAL_MASK: u8 = 0x04;

pub const RX_GAIN_POWER_SAVING: u8 = 0x94;

/// floor(868_100_000 * 2^25 / 32_000_000), as the SX1262 takes it.
pub const RF_FREQUENCY_WORD: u32 = 0x3641_9999;

/// Signal measurements reported by the SX1262 for one received packet.
#[derive(Clone, Copy, Debug, Eq, PartialEq, Structural)]
pub struct RadioMetadata {
    /// Packet RSSI in one hundredth of a decibel-milliwatt.
    pub packet_rssi_centi_dbm: i16,
    /// Packet SNR in one hundredth of a decibel.
    pub snr_centi_db: i16,
    /// Signal RSSI in one hundredth of a decibel-milliwatt.
    pub signal_rssi_centi_dbm: i16,
}

/// A received raw `LoRa` packet and its signal measurements.
#[derive(Clone, Debug, Eq, PartialEq)]
pub struct RadioPacket {
    /// Bytes read from the SX1262 receive buffer.
    pub payload: Vec<u8>,
    /// Measurements reported for this packet.
    pub metadata: RadioMetadata,
}

/// One terminal receive event reported by the SX1262.
#[derive(Clone, Debug, Eq, PartialEq)]
pub enum ReceiveEvent {
    /// One packet whose PHY header and CRC were accepted by the radio.
    Packet(RadioPacket),
    /// The radio rejected a malformed `LoRa` header.
    HeaderError {
        /// Complete IRQ bitmap observed for this event.
        irq: u16,
    },
    /// The radio rejected the packet's PHY CRC.
    CrcError {
        /// Complete IRQ bitmap observed for this event.
        irq: u16,
    },
    /// The radio reported an RX timeout.
    RadioTimeout {
        /// Complete IRQ bitmap observed for this event.
        irq: u16,
    },
    /// DIO1 fired without one of the configured terminal conditions.
    OtherIrq(u16),
}

/// What the radio did that it should not have.
#[derive(Clone, Copy, Debug, Eq, PartialEq, Structural)]
pub enum RadioError {
    /// SX1262 BUSY did not return low within the bounded wait.
    BusyTimeout,
    /// The SPI controller transferred fewer bytes than requested.
    ShortTransfer {
        /// Required transfer length.
        expected: usize,
        /// Length reported by the SPI controller.
        actual: usize,
    },
    /// The returned SX1262 status byte is electrically or structurally invalid.
    InvalidStatus {
        /// Command opcode associated with the read.
        opcode: u8,
        /// Returned status byte.
        status: u8,
    },
    /// The SX1262 reported a command timeout or processing/execution failure.
    CommandRejected {
        /// Command opcode that failed.
        opcode: u8,
        /// SX1262 status byte.
        status: u8,
    },
    /// Packet type readback did not report `LoRa` mode.
    UnexpectedPacketType(u8),
    /// Private `LoRa` sync-word readback did not match `0x1424`.
    SyncWordMismatch(u16),
    /// The SX1262 retained one or more device error flags after reset.
    DeviceErrors(u16),
    /// The radio did not enter the expected chip mode.
    UnexpectedMode {
        /// Expected mode bits from the status byte.
        expected: u8,
        /// Full observed status byte.
        status: u8,
    },
}

/// The text of a radio failure.
pub open spec fn radio_error_text(error: RadioError) -> Seq<char> {
    match error {
        RadioError::BusyTimeout => "SX1262 BUSY remained high for one second"@,
        RadioError::ShortTransfer { expected, actual } => "short SPI transfer: expected "@
            + text::decimal(expected as nat) + " bytes, transferred "@ + text::decimal(
            actual as nat,
        ),
        RadioError::InvalidStatus { opcode, status } => "invalid SX1262 status byte 0x"@
            + text::hex_digits(status as nat, 2) + " for command 0x"@ + text::hex_digits(
            opcode as nat,
            2,
        ),
        RadioError::CommandRejected { opcode, status } => "SX1262 rejected command 0x"@
            + text::hex_digits(opcode as nat, 2) + " with status 0x"@ + text::hex_digits(
            status as nat,
            2,
        ),
        RadioError::UnexpectedPacketType(packet_type) => "SX1262 packet type readback was 0x"@
            + text::hex_digits(packet_type as nat, 2) + ", not LoRa"@,
        RadioError::SyncWordMismatch(sync_word) => "SX1262 sync-word readback was 0x"@
            + text::hex_digits(sync_word as nat, 4) + ", expected 0x1424"@,
        RadioError::DeviceErrors(errors) => "SX1262 device error flags are set: 0x"@
            + text::hex_digits(errors as nat, 4),
        RadioError::UnexpectedMode { expected, status } => "SX1262 mode mismatch: expected 0x"@
            + text::hex_digits(expected as nat, 2) + ", status was 0x"@ + text::hex_digits(
            status as nat,
            2,
        ),
    }
}

/// Hexadecimal digits between two texts.
fn hex_between(before: &str, value: u64, width: u8, after: &str) -> (out: String)
    ensures
        out@ == before@ + text::hex_digits(value as nat, width as nat) + after@,
{
    let mut out = String::from_str(before);
    push_hex(&mut out, value, width);
    out.append(after);
    out
}

impl RadioError {
    /// A readable description.
    #[must_use]
    pub fn message(self) -> (message: String)
        ensures
            message@ == radio_error_text(self),
    {
        match self {
            RadioError::BusyTimeout => String::from_str("SX1262 BUSY remained high for one second"),
            RadioError::ShortTransfer { expected, actual } => ending_numbers(
                "short SPI transfer: expected ",
                expected as u64,
                " bytes, transferred ",
                actual as u64,
            ),
            RadioError::InvalidStatus { opcode, status } => {
                let mut message = hex_between(
                    "invalid SX1262 status byte 0x",
                    status as u64,
                    2,
                    " for command 0x",
                );
                push_hex(&mut message, opcode as u64, 2);
                message
            },
            RadioError::CommandRejected { opcode, status } => {
                let mut message = hex_between(
                    "SX1262 rejected command 0x",
                    opcode as u64,
                    2,
                    " with status 0x",
                );
                push_hex(&mut message, status as u64, 2);
                message
            },
            RadioError::UnexpectedPacketType(packet_type) => hex_between(
                "SX1262 packet type readback was 0x",
                packet_type as u64,
                2,
                ", not LoRa",
            ),
            RadioError::SyncWordMismatch(sync_word) => hex_between(
                "SX1262 sync-word readback was 0x",
                sync_word as u64,
                4,
                ", expected 0x1424",
            ),
            RadioError::DeviceErrors(errors) => {
                let mut message = String::from_str("SX1262 device error flags are set: 0x");
                push_hex(&mut message, errors as u64, 4);
                message
            },
            RadioError::UnexpectedMode { expected, status } => {
                let mut message = hex_between(
                    "SX1262 mode mismatch: expected 0x",
                    expected as u64,
                    2,
                    ", status was 0x",
                );
                push_hex(&mut message, status as u64, 2);
                message
            },
        }
    }
}

/// What an interrupt bitmap reports.
#[derive(Clone, Copy, Debug, Eq, PartialEq, Structural)]
pub enum IrqKind {
    HeaderError,
    CrcError,
    Packet,
    Timeout,
    Other,
}

/// What an interrupt bitmap reports. An error flag takes precedence over a
/// received packet.
pub open spec fn irq_kind(irq: u16) -> IrqKind {
    if irq & IRQ_HEADER_ERROR != 0 {
        IrqKind::HeaderError
    } else if irq & IRQ_CRC_ERROR != 0 {
        IrqKind::CrcError
    } else if irq & IRQ_RX_DONE != 0 {
        IrqKind::Packet
    } else if irq & IRQ_RX_TX_TIMEOUT != 0 {
        IrqKind::Timeout
    } else {
        IrqKind::Other
    }
}

/// Classifies an interrupt bitmap.
#[must_use]
pub fn classify_irq(irq: u16) -> (kind: IrqKind)
    ensures
        kind == irq_kind(irq),
{
    if irq & IRQ_HEADER_ERROR != 0 {
        IrqKind::HeaderError
    } else if irq & IRQ_CRC_ERROR != 0 {
        IrqKind::CrcError
    } else if irq & IRQ_RX_DONE != 0 {
        IrqKind::Packet
    } else if irq & IRQ_RX_TX_TIMEOUT != 0 {
        IrqKind::Timeout
    } else {
        IrqKind::Other
    }
}

/// The event of an interrupt bitmap that reports no packet.
pub open spec fn event_of(irq: u16) -> Option<ReceiveEvent> {
    match irq_kind(irq) {
        IrqKind::HeaderError => Some(ReceiveEvent::HeaderError { irq }),
        IrqKind::CrcError => Some(ReceiveEvent::CrcError { irq }),
        IrqKind::Packet => None,
        IrqKind::Timeout => Some(ReceiveEvent::RadioTimeout { irq }),
        IrqKind::Other => Some(ReceiveEvent::OtherIrq(irq)),
    }
}

/// The event of an interrupt bitmap, or nothing where the packet buffer is to be
/// read first.
#[must_use]
pub fn event_without_packet(irq: u16) -> (event: Option<ReceiveEvent>)
    ensures
        event == event_of(irq),
{
    match classify_irq(irq) {
        IrqKind::HeaderError => Some(ReceiveEvent::HeaderError { irq }),
        IrqKind::CrcError => Some(ReceiveEvent::CrcError { irq }),
        IrqKind::Packet => None,
        IrqKind::Timeout => Some(ReceiveEvent::RadioTimeout { irq }),
        IrqKind::Other => Some(ReceiveEvent::OtherIrq(irq)),
    }
}

/// The fault that a status byte reports.
pub open spec fn status_fault(opcode: u8, status: u8) -> Option<RadioError> {
    if status == 0x00 || status == 0xff {
        Some(RadioError::InvalidStatus { opcode, status })
    } else if status & 0x0e == 0x06 || status & 0x0e == 0x08 || status & 0x0e == 0x0a {
        Some(RadioError::CommandRejected { opcode, status })
    } else {
        None
    }
}

/// No fault, or the fault.
pub open spec fn verdict(fault: Option<RadioError>) -> Result<(), RadioError> {
    match fault {
        Some(error) => Err(error),
        None => Ok(()),
    }
}

/// Checks the status byte of a command.
///
/// # Errors
///
/// Returns an error for an electrically invalid byte or a rejected command.
pub fn check_status(opcode: u8, status: u8) -> (result: Result<(), RadioError>)
    ensures
        result == verdict(status_fault(opcode, status)),
{
    if status == 0x00 || status == 0xff {
        return Err(RadioError::InvalidStatus { opcode, status });
    }
    let outcome: u8 = status & 0x0e;
    if outcome == 0x06 || outcome == 0x08 || outcome == 0x0a {
        Err(RadioError::CommandRejected { opcode, status })
    } else {
        Ok(())
    }
}

/// Checks that the radio is in the expected chip mode.
///
/// # Errors
///
/// Returns an error for any other mode.
pub fn ensure_mode(status: u8, expected: u8) -> (result: Result<(), RadioError>)
    ensures
        result == if status & 0x70 == expected {
            Ok(())
        } else {
            Err(RadioError::UnexpectedMode { expected, status })
        },
{
    if status & 0x70 == expected {
        Ok(())
    } else {
        Err(RadioError::UnexpectedMode { expected, status })
    }
}

/// Checks that a transfer moved every byte.
///
/// # Errors
///
/// Returns an error for a short transfer.
pub fn check_transfer(expected: usize, actual: usize) -> (result: Result<(), RadioError>)
    ensures
        result == if actual == expected {
            Ok(())
        } else {
            Err(RadioError::ShortTransfer { expected, actual })
        },
{
    if actual == expected {
        Ok(())
    } else {
        Err(RadioError::ShortTransfer { expected, actual })
    }
}

/// Checks the packet type that was read back.
///
/// # Errors
///
/// Returns an error for any type but `LoRa`.
pub fn check_packet_type(packet_type: u8) -> (result: Result<(), RadioError>)
    ensures
        result == if packet_type == PACKET_TYPE_LORA {
            Ok(())
        } else {
            Err(RadioError::UnexpectedPacketType(packet_type))
        },
{
    if packet_type != PACKET_TYPE_LORA {
        return Err(RadioError::UnexpectedPacketType(packet_type));
    }
    Ok(())
}

/// The word of two bytes, the high one first.
pub open spec fn word_of(high: u8, low: u8) -> u16 {
    (high * 256 + low) as u16
}

/// The word of two bytes, the high one first.
#[must_use]
pub fn word(high: u8, low: u8) -> (value: u16)
    ensures
        value == word_of(high, low),
        value == high * 256 + low,
{
    high as u16 * 256 + low as u16
}

/// Checks the sync word that was read back.
///
/// # Errors
///
/// Returns an error for any word but the private one.
pub fn check_sync_word(bytes: [u8; 2]) -> (result: Result<(), RadioError>)
    ensures
        result == if word_of(bytes[0], bytes[1]) == PRIVATE_SYNC_WORD {
            Ok(())
        } else {
            Err(RadioError::SyncWordMismatch(word_of(bytes[0], bytes[1])))
        },
{
    let sync_word: u16 = word(bytes[0], bytes[1]);
    if sync_word != PRIVATE_SYNC_WORD {
        return Err(RadioError::SyncWordMismatch(sync_word));
    }
    Ok(())
}

/// Checks the device error flags that were read back.
///
/// # Errors
///
/// Returns an error for any flag.
pub fn check_device_errors(bytes: [u8; 2]) -> (result: Result<(), RadioError>)
    ensures
        result == if word_of(bytes[0], bytes[1]) == 0 {
            Ok(())
        } else {
            Err(RadioError::DeviceErrors(word_of(bytes[0], bytes[1])))
        },
{
    let errors: u16 = word(bytes[0], bytes[1]);
    if errors != 0 {
        return Err(RadioError::DeviceErrors(errors));
    }
    Ok(())
}

/// A byte as a number in two's complement.
pub open spec fn signed_byte(byte: u8) -> int {
    if byte < 128 {
        byte as int
    } else {
        byte - 256
    }
}

/// The measurements of a packet status: half decibels below zero, and quarter
/// decibels of signal-to-noise ratio in two's complement.
pub open spec fn packet_status(raw: [u8; 3]) -> RadioMetadata {
    RadioMetadata {
        packet_rssi_centi_dbm: (-50 * raw[0]) as i16,
        snr_centi_db: (25 * signed_byte(raw[1])) as i16,
        signal_rssi_centi_dbm: (-50 * raw[2]) as i16,
    }
}

/// Reads a packet status.
#[must_use]
pub fn decode_packet_status(raw: [u8; 3]) -> (metadata: RadioMetadata)
    ensures
        metadata == packet_status(raw),
        metadata.packet_rssi_centi_dbm == -50 * raw[0],
        metadata.snr_centi_db == 25 * signed_byte(raw[1]),
        metadata.signal_rssi_centi_dbm == -50 * raw[2],
{
    let snr: i16 = if raw[1] < 128 {
        raw[1] as i16
    } else {
        raw[1] as i16 - 256
    };
    RadioMetadata {
        packet_rssi_centi_dbm: -(raw[0] as i16) * 50,
        snr_centi_db: snr * 25,
        signal_rssi_centi_dbm: -(raw[2] as i16) * 50,
    }
}

/// Zero bytes.
pub open spec fn zeros(count: nat) -> Seq<u8> {
    Seq::new(count, |i: int| 0u8)
}

/// Appends zero bytes.
fn push_zeros(command: &mut Vec<u8>, count: usize)
    ensures
        final(command)@ == old(command)@ + zeros(count as nat),
{
    let ghost before = command@;
    let mut pushed: usize = 0;
    while pushed < count
        invariant
            pushed <= count,
            command@ =~= before + zeros(pushed as nat),
        decreases count - pushed,
    {
        command.push(0);
        pushed = pushed + 1;
    }
}

/// What can be asked of the radio.
#[derive(Clone, Copy, Debug, Eq, PartialEq, Structural)]
pub enum Query {
    /// The interrupt bitmap.
    IrqStatus,
    /// The length of the received packet and where it starts in the buffer.
    RxBufferStatus,
    /// The signal measurements of the received packet.
    PacketStatus,
    /// The packet type.
    PacketType,
    /// The device error flags.
    DeviceErrors,
}

impl Query {
    /// The opcode of this query.
    pub open spec fn opcode_of(self) -> u8 {
        match self {
            Query::IrqStatus => OP_GET_IRQ_STATUS,
            Query::RxBufferStatus => OP_GET_RX_BUFFER_STATUS,
            Query::PacketStatus => OP_GET_PACKET_STATUS,
            Query::PacketType => OP_GET_PACKET_TYPE,
            Query::DeviceErrors => OP_GET_DEVICE_ERRORS,
        }
    }

    /// How many bytes the answer to this query has.
    pub open spec fn answer_len(self) -> nat {
        match self {
            Query::IrqStatus => 2,
            Query::RxBufferStatus => 2,
            Query::PacketStatus => 3,
            Query::PacketType => 1,
            Query::DeviceErrors => 2,
        }
    }

    /// The opcode of this query.
    #[must_use]
    pub fn opcode(self) -> (opcode: u8)
        ensures
            opcode == self.opcode_of(),
    {
        match self {
            Query::IrqStatus => OP_GET_IRQ_STATUS,
            Query::RxBufferStatus => OP_GET_RX_BUFFER_STATUS,
            Query::PacketStatus => OP_GET_PACKET_STATUS,
            Query::PacketType => OP_GET_PACKET_TYPE,
            Query::DeviceErrors => OP_GET_DEVICE_ERRORS,
        }
    }

    /// How many bytes the answer to this query has.
    fn length(self) -> (length: usize)
        ensures
            length == self.answer_len(),
    {
        match self {
            Query::IrqStatus => 2,
            Query::RxBufferStatus => 2,
            Query::PacketStatus => 3,
            Query::PacketType => 1,
            Query::DeviceErrors => 2,
        }
    }
}

/// The bytes to send for a query: the opcode, a byte for the status, and one for
/// each byte of the answer.
pub open spec fn read_command_bytes(query: Query) -> Seq<u8> {
    seq![query.opcode_of()] + zeros(query.answer_len() + 1)
}

/// Builds a query.
#[must_use]
pub fn read_command(query: Query) -> (command: Vec<u8>)
    ensures
        command@ == read_command_bytes(query),
{
    let mut command: Vec<u8> = vec![query.opcode()];
    push_zeros(&mut command, query.length() + 1);
    command
}

/// The bytes to send to write a register.
pub open spec fn write_register_bytes(address: u16, data: Seq<u8>) -> Seq<u8> {
    seq![OP_WRITE_REGISTER, (address / 256) as u8, (address % 256) as u8] + data
}

/// Builds a register write.
#[must_use]
pub fn write_register(address: u16, data: &[u8]) -> (command: Vec<u8>)
    ensures
        command@ == write_register_bytes(address, data@),
{
    let mut command: Vec<u8> = vec![
        OP_WRITE_REGISTER,
        (address / 256) as u8,
        (address % 256) as u8,
    ];
    command.extend_from_slice(data);
    command
}

/// The bytes to send to read a register: the opcode, the address, a byte for the
/// status, and one for each byte of the answer.
pub open spec fn read_register_bytes(address: u16, length: nat) -> Seq<u8> {
    seq![OP_READ_REGISTER, (address / 256) as u8, (address % 256) as u8] + zeros(length + 1)
}

/// Builds a register read.
#[must_use]
pub fn read_register(address: u16, length: u8) -> (command: Vec<u8>)
    ensures
        command@ == read_register_bytes(address, length as nat),
{
    let mut command: Vec<u8> = vec![
        OP_READ_REGISTER,
        (address / 256) as u8,
        (address % 256) as u8,
    ];
    push_zeros(&mut command, length as usize + 1);
    command
}

/// The bytes to send to read the packet buffer.
pub open spec fn read_buffer_bytes(offset: u8, length: nat) -> Seq<u8> {
    seq![OP_READ_BUFFER, offset] + zeros(length + 1)
}

/// Builds a packet buffer read.
#[must_use]
pub fn read_buffer(offset: u8, length: u8) -> (command: Vec<u8>)
    ensures
        command@ == read_buffer_bytes(offset, length as nat),
{
    let mut command: Vec<u8> = vec![OP_READ_BUFFER, offset];
    push_zeros(&mut command, length as usize + 1);
    command
}

/// The answer to a query whose status is good.
///
/// # Errors
///
/// Returns an error if the status byte reports a fault.
pub fn command_answer(query: Query, received: &[u8]) -> (result: Result<Vec<u8>, RadioError>)
    requires
        received@.len() == read_command_bytes(query).len(),
    ensures
        match result {
            Ok(answer) => {
                &&& status_fault(query.opcode_of(), received@[1]) is None
                &&& answer@ == received@.skip(2)
                &&& answer@.len() == query.answer_len()
            },
            Err(error) => status_fault(query.opcode_of(), received@[1]) == Some(error),
        },
{
    match check_status(query.opcode(), received[1]) {
        Ok(()) => Ok(answer_behind(received, 2)),
        Err(error) => Err(error),
    }
}

/// The answer to a register read.
#[must_use]
pub fn register_answer(received: &[u8]) -> (answer: Vec<u8>)
    requires
        received@.len() >= 4,
    ensures
        answer@ == received@.skip(4),
{
    answer_behind(received, 4)
}

/// The answer to a packet buffer read.
#[must_use]
pub fn buffer_answer(received: &[u8]) -> (answer: Vec<u8>)
    requires
        received@.len() >= 3,
    ensures
        answer@ == received@.skip(3),
{
    answer_behind(received, 3)
}

/// What was received behind the first `from` bytes.
fn answer_behind(received: &[u8], from: usize) -> (answer: Vec<u8>)
    requires
        from <= received@.len(),
    ensures
        answer@ == received@.skip(from as int),
{
    let mut answer: Vec<u8> = Vec::new();
    answer.extend_from_slice(slice_subrange(received, from, received.len()));
    assert(answer@ =~= received@.skip(from as int));
    answer
}

/// The commands that prepare reception, up to the point where the polarity
/// register is read: standby, regulator, RF switch, packet type, private sync
/// word, buffer, image calibration, frequency, modulation (SF7, BW125, CR4/5, no
/// low-data-rate optimization), and packet parameters (preamble 8, explicit
/// header, maximum payload, CRC, normal IQ).
pub open spec fn setup_bytes() -> Seq<Seq<u8>> {
    seq![
        seq![OP_SET_STANDBY, STANDBY_RC],
        seq![OP_SET_REGULATOR_MODE, REGULATOR_LDO],
        seq![OP_SET_DIO2_AS_RF_SWITCH, 0x01u8],
        seq![OP_SET_PACKET_TYPE, PACKET_TYPE_LORA],
        write_register_bytes(REGISTER_LORA_SYNC_WORD, seq![0x14u8, 0x24u8]),
        seq![OP_SET_BUFFER_BASE_ADDRESS, 0x00u8, 0x00u8],
        seq![OP_CALIBRATE_IMAGE, 0xd7u8, 0xdbu8],
        seq![OP_SET_RF_FREQUENCY, 0x36u8, 0x41u8, 0x99u8, 0x99u8],
        seq![OP_SET_MODULATION_PARAMS, 0x07u8, 0x04u8, 0x01u8, 0x00u8],
        seq![OP_SET_PACKET_PARAMS, 0x00u8, 0x08u8, 0x00u8, 0xffu8, 0x01u8, 0x00u8],
    ]
}

/// The commands that finish the preparation once the polarity register was read:
/// normal IQ, receive gain, timers, and the terminal interrupts on DIO1.
pub open spec fn finish_bytes(iq_polarity: u8) -> Seq<Seq<u8>> {
    seq![
        write_register_bytes(REGISTER_IQ_POLARITY, seq![iq_polarity | IQ_NORMAL_MASK]),
        write_register_bytes(REGISTER_RX_GAIN, seq![RX_GAIN_POWER_SAVING]),
        seq![OP_SET_STOP_RX_TIMER_ON_PREAMBLE, 0x01u8],
        seq![OP_SET_LORA_SYMBOL_TIMEOUT, 0x00u8],
        seq![OP_SET_DIO_IRQ_PARAMS, 0x02u8, 0x62u8, 0x02u8, 0x62u8, 0u8, 0u8, 0u8, 0u8],
    ]
}

/// Whether commands are these bytes, one for one.
pub open spec fn are_commands(commands: Seq<Vec<u8>>, bytes: Seq<Seq<u8>>) -> bool {
    commands.len() == bytes.len() && forall|i: int|
        0 <= i < bytes.len() ==> (#[trigger] commands[i])@ == bytes[i]
}

/// The commands that prepare reception, in order.
#[must_use]
pub fn setup_commands() -> (commands: Vec<Vec<u8>>)
    ensures
        are_commands(commands@, setup_bytes()),
{
    let mut commands: Vec<Vec<u8>> = Vec::new();
    commands.push(vec![OP_SET_STANDBY, STANDBY_RC]);
    commands.push(vec![OP_SET_REGULATOR_MODE, REGULATOR_LDO]);
    commands.push(vec![OP_SET_DIO2_AS_RF_SWITCH, 0x01]);
    commands.push(vec![OP_SET_PACKET_TYPE, PACKET_TYPE_LORA]);
    commands.push(
        write_register(
            REGISTER_LORA_SYNC_WORD,
            &[(PRIVATE_SYNC_WORD / 256) as u8, (PRIVATE_SYNC_WORD % 256) as u8],
        ),
    );
    commands.push(vec![OP_SET_BUFFER_BASE_ADDRESS, 0x00, 0x00]);
    commands.push(vec![OP_CALIBRATE_IMAGE, 0xd7, 0xdb]);
    commands.push(
        vec![
            OP_SET_RF_FREQUENCY,
            (RF_FREQUENCY_WORD / 0x0100_0000) as u8,
            (RF_FREQUENCY_WORD / 0x0001_0000 % 256) as u8,
            (RF_FREQUENCY_WORD / 0x0100 % 256) as u8,
            (RF_FREQUENCY_WORD % 256) as u8,
        ],
    );
    commands.push(vec![OP_SET_MODULATION_PARAMS, SPREADING_FACTOR, 0x04, 0x01, 0x00]);
    commands.push(vec![OP_SET_PACKET_PARAMS, 0x00, 0x08, 0x00, 0xff, 0x01, 0x00]);
    assert(are_commands(commands@, setup_bytes()));
    commands
}

/// The commands that finish the preparation, in order.
#[must_use]
pub fn finish_commands(iq_polarity: u8) -> (commands: Vec<Vec<u8>>)
    ensures
        are_commands(commands@, finish_bytes(iq_polarity)),
{
    let high: u8 = (IRQ_TERMINAL_MASK / 256) as u8;
    let low: u8 = (IRQ_TERMINAL_MASK % 256) as u8;
    let mut commands: Vec<Vec<u8>> = Vec::new();
    commands.push(write_register(REGISTER_IQ_POLARITY, &[iq_polarity | IQ_NORMAL_MASK]));
    commands.push(write_register(REGISTER_RX_GAIN, &[RX_GAIN_POWER_SAVING]));
    commands.push(vec![OP_SET_STOP_RX_TIMER_ON_PREAMBLE, 0x01]);
    commands.push(vec![OP_SET_LORA_SYMBOL_TIMEOUT, 0x00]);
    commands.push(vec![OP_SET_DIO_IRQ_PARAMS, high, low, high, low, 0x00, 0x00, 0x00, 0x00]);
    proof {
        let bytes = finish_bytes(iq_polarity);
        assert(commands@[0]@ =~= bytes[0]);
        assert(commands@[1]@ =~= bytes[1]);
        assert(commands@[2]@ =~= bytes[2]);
        assert(commands@[3]@ =~= bytes[3]);
        assert(commands@[4]@ =~= bytes[4]);
    }
    commands
}

/// The commands that start or restart continuous reception: clear every
/// interrupt, then receive without a timeout.
pub open spec fn receive_bytes() -> Seq<Seq<u8>> {
    seq![
        seq![OP_CLEAR_IRQ_STATUS, 0xffu8, 0xffu8],
        seq![OP_SET_RX, 0xffu8, 0xffu8, 0xffu8],
    ]
}

/// The commands that start or restart continuous reception, in order.
#[must_use]
pub fn receive_commands() -> (commands: Vec<Vec<u8>>)
    ensures
        are_commands(commands@, receive_bytes()),
{
    let mut commands: Vec<Vec<u8>> = Vec::new();
    commands.push(vec![OP_CLEAR_IRQ_STATUS, 0xff, 0xff]);
    commands.push(vec![OP_SET_RX, 0xff, 0xff, 0xff]);
    assert(are_commands(commands@, receive_bytes()));
    commands
}

/// A packet that was read from the buffer, with its measurements.
#[must_use]
pub fn received_packet(payload: Vec<u8>, status: [u8; 3]) -> (packet: RadioPacket)
    ensures
        packet.payload == payload,
        packet.metadata == packet_status(status),
{
    RadioPacket { payload, metadata: decode_packet_status(status) }
}

/// Corrupt bytes are never read: the packet buffer is read only if the radio
/// reported a packet and neither a header error nor a CRC error.
pub proof fn law_corrupt_packets_are_not_read(irq: u16)
    requires
        event_of(irq) is None,
    ensures
        irq & IRQ_RX_DONE != 0,
        irq & IRQ_HEADER_ERROR == 0,
        irq & IRQ_CRC_ERROR == 0,
{
}

/// Whether a command makes the radio transmit: `SetTx`, `SetTxContinuousWave`,
/// `SetTxInfinitePreamble`, or a write to the packet buffer.
pub open spec fn transmits(command: Seq<u8>) -> bool {
    command.len() > 0 && (command[0] == 0x83 || command[0] == 0xd1 || command[0] == 0xd2
        || command[0] == 0x0e)
}

/// The radio is only ever made to receive: no command that prepares, starts or
/// reads a reception transmits.
pub proof fn law_commands_only_receive(
    query: Query,
    iq_polarity: u8,
    address: u16,
    data: Seq<u8>,
    offset: u8,
    length: nat,
    i: int,
)
    ensures
        0 <= i < setup_bytes().len() ==> !transmits(#[trigger] setup_bytes()[i]),
        0 <= i < finish_bytes(iq_polarity).len() ==> !transmits(finish_bytes(iq_polarity)[i]),
        0 <= i < receive_bytes().len() ==> !transmits(receive_bytes()[i]),
        !transmits(read_command_bytes(query)),
        !transmits(write_register_bytes(address, data)),
        !transmits(read_register_bytes(address, length)),
        !transmits(read_buffer_bytes(offset, length)),
{
}

/// The configured frequency word is the one of the configured frequency, at the
/// radio's resolution of 32 MHz / 2^25.
pub proof fn law_frequency_word()
    ensures
        RF_FREQUENCY_WORD == FREQUENCY_HZ * 0x0200_0000 / 32_000_000,
        setup_bytes()[7] == seq![
            OP_SET_RF_FREQUENCY,
            (RF_FREQUENCY_WORD / 0x0100_0000) as u8,
            (RF_FREQUENCY_WORD / 0x0001_0000 % 256) as u8,
            (RF_FREQUENCY_WORD / 0x0100 % 256) as u8,
            (RF_FREQUENCY_WORD % 256) as u8,
        ],
{
}

} // verus!
