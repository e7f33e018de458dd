//! What holds of commands and replies as a whole.

use vstd::prelude::*;

use crate::sx1262;
use crate::sx1262::{IrqKind, Query, RadioError, ReceiveEvent};
use crate::text;
use crate::text::laws as text_laws;

verus! {

/// An interrupt bitmap reports a header error wherever that bit is set, a CRC error
/// where only the former is not, a packet only without either, and a timeout only
/// without all three. Every event keeps the complete bitmap.
pub proof fn law_errors_take_precedence(irq: u16)
    ensures
        sx1262::irq_kind(irq) == IrqKind::HeaderError <==> irq & 0x0020 != 0,
        sx1262::irq_kind(irq) == IrqKind::CrcError <==> irq & 0x0020 == 0 && irq & 0x0040 != 0,
        sx1262::irq_kind(irq) == IrqKind::Packet <==> irq & 0x0020 == 0 && irq & 0x0040 == 0 && irq
            & 0x0002 != 0,
        sx1262::irq_kind(irq) == IrqKind::Timeout <==> irq & 0x0020 == 0 && irq & 0x0040 == 0
            && irq & 0x0002 == 0 && irq & 0x0200 != 0,
        match sx1262::event_of(irq) {
            Some(ReceiveEvent::HeaderError { irq: reported }) => reported == irq && irq & 0x0020
                != 0,
            Some(ReceiveEvent::CrcError { irq: reported }) => reported == irq && irq & 0x0040 != 0
                && irq & 0x0020 == 0,
            Some(ReceiveEvent::RadioTimeout { irq: reported }) => reported == irq && irq & 0x0200
                != 0 && irq & 0x0062 == 0,
            Some(ReceiveEvent::OtherIrq(reported)) => reported == irq && irq & 0x0262 == 0,
            Some(ReceiveEvent::Packet(_)) => false,
            None => irq & 0x0002 != 0 && irq & 0x0060 == 0,
        },
{
    assert(irq & 0x0062 == 0 <==> irq & 0x0020 == 0 && irq & 0x0040 == 0 && irq & 0x0002 == 0)
        by (bit_vector);
    assert(irq & 0x0060 == 0 <==> irq & 0x0020 == 0 && irq & 0x0040 == 0) by (bit_vector);
    assert(irq & 0x0262 == 0 <==> irq & 0x0020 == 0 && irq & 0x0040 == 0 && irq & 0x0002 == 0 && irq
        & 0x0200 == 0) by (bit_vector);
}

/// The interrupts that the radio is told to raise are exactly those that end a
/// reception, and it raises them on the line that the receiver watches.
pub proof fn law_raised_interrupts_end_a_reception(irq: u16, iq_polarity: u8)
    ensures
        ({
            let command = sx1262::finish_bytes(iq_polarity)[4];
            let enabled = sx1262::word_of(command[1], command[2]);
            let on_dio1 = sx1262::word_of(command[3], command[4]);
            let on_dio2 = sx1262::word_of(command[5], command[6]);
            let on_dio3 = sx1262::word_of(command[7], command[8]);
            &&& command.len() == 9
            &&& command[0] == 0x08
            &&& on_dio1 == enabled
            &&& on_dio2 == 0
            &&& on_dio3 == 0
            &&& irq & enabled != 0 <==> sx1262::irq_kind(irq) != IrqKind::Other
        }),
{
    assert(irq & 0x0262 == 0 <==> irq & 0x0020 == 0 && irq & 0x0040 == 0 && irq & 0x0002 == 0 && irq
        & 0x0200 == 0) by (bit_vector);
}

/// A status byte is a fault exactly if it is all zeros or all ones, or its command bits
/// are 3, 4 or 5: a timeout, a processing error or a failure to execute. The fault names
/// the command and the byte.
pub proof fn law_status_bytes(opcode: u8, status: u8)
    ensures
        sx1262::status_fault(opcode, status) is None <==> {
            &&& status != 0
            &&& status != 255
            &&& !(3 <= (status >> 1) & 7 <= 5)
        },
        match sx1262::status_fault(opcode, status) {
            Some(RadioError::InvalidStatus { opcode: named, status: found }) => named == opcode
                && found == status && (status == 0 || status == 255),
            Some(RadioError::CommandRejected { opcode: named, status: found }) => named == opcode
                && found == status && 3 <= (status >> 1) & 7 <= 5,
            Some(_) => false,
            None => true,
        },
{
    assert(3 <= (status >> 1) & 7 <= 5 <==> status & 0x0e == 0x06 || status & 0x0e == 0x08 || status
        & 0x0e == 0x0a) by (bit_vector);
}

/// Every command addresses what it is asked for: a register command carries the address
/// with its high byte first, a buffer command the offset, and a read leaves room for the
/// status and for each byte of the answer.
pub proof fn law_commands_address_what_is_asked_for(
    query: Query,
    address: u16,
    data: Seq<u8>,
    offset: u8,
    length: nat,
)
    ensures
        ({
            let command = sx1262::write_register_bytes(address, data);
            &&& command[0] == 0x0d
            &&& command[1] * 256 + command[2] == address
            &&& command.skip(3) == data
        }),
        ({
            let command = sx1262::read_register_bytes(address, length);
            &&& command[0] == 0x1d
            &&& command[1] * 256 + command[2] == address
            &&& command.len() == 4 + length
            &&& forall|i: int| 3 <= i < command.len() ==> #[trigger] command[i] == 0
        }),
        ({
            let command = sx1262::read_buffer_bytes(offset, length);
            &&& command[0] == 0x1e
            &&& command[1] == offset
            &&& command.len() == 3 + length
            &&& forall|i: int| 2 <= i < command.len() ==> #[trigger] command[i] == 0
        }),
        sx1262::read_command_bytes(query)[0] == query.opcode_of(),
        sx1262::read_command_bytes(query).len() == 2 + query.answer_len(),
        forall|i: int|
            1 <= i < sx1262::read_command_bytes(query).len()
                ==> #[trigger] sx1262::read_command_bytes(query)[i] == 0,
        forall|other: Query|
            other != query ==> #[trigger] other.opcode_of() != query.opcode_of(),
{
    assert(sx1262::write_register_bytes(address, data).skip(3) =~= data);
}

/// The radio is prepared for what the receiver checks afterwards: the sync word that is
/// written is the one that is expected back, the packet type is that of `LoRa`, the
/// frequency is the configured one at the radio's resolution of 32 MHz / 2^25, and the
/// polarity bit is set whatever was read, without touching another bit.
pub proof fn law_preparation_is_what_is_checked(iq_polarity: u8)
    ensures
        ({
            let setup = sx1262::setup_bytes();
            let packet_type = setup[3];
            let sync_word = setup[4];
            let frequency = setup[7];
            let modulation = setup[8];
            let word = frequency[1] * 0x100_0000 + frequency[2] * 0x1_0000 + frequency[3] * 0x100
                + frequency[4];
            &&& setup[0] =~= seq![0x80u8, 0x00u8]
            &&& packet_type =~= seq![0x8au8, 0x01u8]
            &&& sync_word.len() == 5
            &&& sync_word[1] * 256 + sync_word[2] == 0x0740
            &&& sx1262::word_of(sync_word[3], sync_word[4]) == 0x1424
            &&& word * 32_000_000 <= 868_100_000 * 0x200_0000
            &&& 868_100_000 * 0x200_0000 < (word + 1) * 32_000_000
            &&& modulation[1] == 7
        }),
        ({
            let polarity = sx1262::finish_bytes(iq_polarity)[0];
            &&& polarity.len() == 4
            &&& polarity[1] * 256 + polarity[2] == 0x0736
            &&& polarity[3] & 0x04 != 0
            &&& polarity[3] & 0xfb == iq_polarity & 0xfb
        }),
{
    assert((iq_polarity | 0x04) & 0x04 != 0 && (iq_polarity | 0x04) & 0xfb == iq_polarity & 0xfb)
        by (bit_vector);
}

/// Measurements of a packet status are in hundredths: the signal strengths are half
/// decibels below zero, and the signal-to-noise ratio quarter decibels in two's
/// complement. Each comes of its own byte.
pub proof fn law_measurements_are_in_hundredths(raw: [u8; 3])
    ensures
        ({
            let metadata = sx1262::packet_status(raw);
            &&& metadata.packet_rssi_centi_dbm * 2 == -100 * raw[0]
            &&& metadata.snr_centi_db * 4 == 100 * (if raw[1] < 128 {
                raw[1] as int
            } else {
                raw[1] - 256
            })
            &&& metadata.signal_rssi_centi_dbm * 2 == -100 * raw[2]
        }),
{
}

/// The messages of radio failures show each value behind its own words.
#[verifier::spinoff_prover]
#[verifier::rlimit(30)]
pub proof fn law_messages_show_what_was_found(
    expected: usize,
    actual: usize,
    opcode: u8,
    status: u8,
    word: u16,
)
    ensures
        text_laws::shows(
            sx1262::radio_error_text(RadioError::ShortTransfer { expected, actual }),
            "short SPI transfer: expected "@ + text::decimal(expected as nat)
                + " bytes, transferred "@,
        ),
        text_laws::shows(
            sx1262::radio_error_text(RadioError::ShortTransfer { expected, actual }),
            " bytes, transferred "@ + text::decimal(actual as nat),
        ),
        text_laws::shows(
            sx1262::radio_error_text(RadioError::InvalidStatus { opcode, status }),
            "invalid SX1262 status byte 0x"@ + text::hex_digits(status as nat, 2)
                + " for command 0x"@,
        ),
        text_laws::shows(
            sx1262::radio_error_text(RadioError::InvalidStatus { opcode, status }),
            " for command 0x"@ + text::hex_digits(opcode as nat, 2),
        ),
        text_laws::shows(
            sx1262::radio_error_text(RadioError::CommandRejected { opcode, status }),
            "SX1262 rejected command 0x"@ + text::hex_digits(opcode as nat, 2) + " with status 0x"@,
        ),
        text_laws::shows(
            sx1262::radio_error_text(RadioError::CommandRejected { opcode, status }),
            " with status 0x"@ + text::hex_digits(status as nat, 2),
        ),
        text_laws::shows(
            sx1262::radio_error_text(RadioError::UnexpectedPacketType(status)),
            "SX1262 packet type readback was 0x"@ + text::hex_digits(status as nat, 2)
                + ", not LoRa"@,
        ),
        text_laws::shows(
            sx1262::radio_error_text(RadioError::SyncWordMismatch(word)),
            "SX1262 sync-word readback was 0x"@ + text::hex_digits(word as nat, 4)
                + ", expected 0x1424"@,
        ),
        text_laws::shows(
            sx1262::radio_error_text(RadioError::DeviceErrors(word)),
            "SX1262 device error flags are set: 0x"@ + text::hex_digits(word as nat, 4),
        ),
        text_laws::shows(
            sx1262::radio_error_text(RadioError::UnexpectedMode { expected: opcode, status }),
            "SX1262 mode mismatch: expected 0x"@ + text::hex_digits(opcode as nat, 2)
                + ", status was 0x"@,
        ),
        text_laws::shows(
            sx1262::radio_error_text(RadioError::UnexpectedMode { expected: opcode, status }),
            ", status was 0x"@ + text::hex_digits(status as nat, 2),
        ),
{
    let parts = seq![
        "short SPI transfer: expected "@,
        text::decimal(expected as nat),
        " bytes, transferred "@,
        text::decimal(actual as nat),
    ];
    assert(Seq::<char>::empty() + parts[0] =~= parts[0]);
    let message = sx1262::radio_error_text(RadioError::ShortTransfer { expected, actual });
    assert(message == text_laws::joined(Seq::empty(), parts, 4)) by {
        reveal_with_fuel(text_laws::joined, 5);
    }
    text_laws::lemma_labelled(Seq::empty(), parts, 4, 0);
    text_laws::lemma_labelled(Seq::empty(), parts, 4, 2);
    let parts = seq![
        "invalid SX1262 status byte 0x"@,
        text::hex_digits(status as nat, 2),
        " for command 0x"@,
        text::hex_digits(opcode as nat, 2),
    ];
    assert(Seq::<char>::empty() + parts[0] =~= parts[0]);
    let message = sx1262::radio_error_text(RadioError::InvalidStatus { opcode, status });
    assert(message == text_laws::joined(Seq::empty(), parts, 4)) by {
        reveal_with_fuel(text_laws::joined, 5);
    }
    text_laws::lemma_labelled(Seq::empty(), parts, 4, 0);
    text_laws::lemma_labelled(Seq::empty(), parts, 4, 2);
    let parts = seq![
        "SX1262 rejected command 0x"@,
        text::hex_digits(opcode as nat, 2),
        " with status 0x"@,
        text::hex_digits(status as nat, 2),
    ];
    assert(Seq::<char>::empty() + parts[0] =~= parts[0]);
    let message = sx1262::radio_error_text(RadioError::CommandRejected { opcode, status });
    assert(message == text_laws::joined(Seq::empty(), parts, 4)) by {
        reveal_with_fuel(text_laws::joined, 5);
    }
    text_laws::lemma_labelled(Seq::empty(), parts, 4, 0);
    text_laws::lemma_labelled(Seq::empty(), parts, 4, 2);
    let parts = seq![
        "SX1262 packet type readback was 0x"@,
        text::hex_digits(status as nat, 2),
        ", not LoRa"@,
    ];
    assert(Seq::<char>::empty() + parts[0] =~= parts[0]);
    let message = sx1262::radio_error_text(RadioError::UnexpectedPacketType(status));
    assert(message == text_laws::joined(Seq::empty(), parts, 3)) by {
        reveal_with_fuel(text_laws::joined, 4);
    }
    text_laws::lemma_labelled(Seq::empty(), parts, 3, 0);
    let parts = seq![
        "SX1262 sync-word readback was 0x"@,
        text::hex_digits(word as nat, 4),
        ", expected 0x1424"@,
    ];
    assert(Seq::<char>::empty() + parts[0] =~= parts[0]);
    let message = sx1262::radio_error_text(RadioError::SyncWordMismatch(word));
    assert(message == text_laws::joined(Seq::empty(), parts, 3)) by {
        reveal_with_fuel(text_laws::joined, 4);
    }
    text_laws::lemma_labelled(Seq::empty(), parts, 3, 0);
    let parts = seq!["SX1262 device error flags are set: 0x"@, text::hex_digits(word as nat, 4)];
    assert(Seq::<char>::empty() + parts[0] =~= parts[0]);
    let message = sx1262::radio_error_text(RadioError::DeviceErrors(word));
    assert(message == text_laws::joined(Seq::empty(), parts, 2)) by {
        reveal_with_fuel(text_laws::joined, 3);
    }
    text_laws::lemma_labelled(Seq::empty(), parts, 2, 0);
    let parts = seq![
        "SX1262 mode mismatch: expected 0x"@,
        text::hex_digits(opcode as nat, 2),
        ", status was 0x"@,
        text::hex_digits(status as nat, 2),
    ];
    assert(Seq::<char>::empty() + parts[0] =~= parts[0]);
    let message = sx1262::radio_error_text(RadioError::UnexpectedMode { expected: opcode, status });
    assert(message == text_laws::joined(Seq::empty(), parts, 4)) by {
        reveal_with_fuel(text_laws::joined, 5);
    }
    text_laws::lemma_labelled(Seq::empty(), parts, 4, 0);
    text_laws::lemma_labelled(Seq::empty(), parts, 4, 2);
}

} // verus!
