use vesta::sx1262::{
    buffer_answer, check_device_errors, check_packet_type, check_status, check_sync_word,
    check_transfer, classify_irq, command_answer, decode_packet_status, ensure_mode,
    event_without_packet, finish_commands, read_buffer, read_command, read_register,
    receive_commands, received_packet, register_answer, setup_commands, write_register, IrqKind,
    Query, RadioError, RadioMetadata, ReceiveEvent, IRQ_CRC_ERROR, IRQ_HEADER_ERROR, IRQ_RX_DONE,
    IRQ_RX_TX_TIMEOUT, IRQ_TERMINAL_MASK, MODE_STANDBY_RC, OP_GET_PACKET_TYPE, OP_GET_STATUS,
    OP_SET_RX, RF_FREQUENCY_WORD,
};

#[test]
fn error_flags_take_precedence_over_rx_done() {
    assert_eq!(
        classify_irq(IRQ_RX_DONE | IRQ_HEADER_ERROR),
        IrqKind::HeaderError
    );
    assert_eq!(classify_irq(IRQ_RX_DONE | IRQ_CRC_ERROR), IrqKind::CrcError);
    assert_eq!(classify_irq(IRQ_RX_DONE), IrqKind::Packet);
}

#[test]
fn frequency_word_matches_868_100_mhz() {
    assert_eq!(RF_FREQUENCY_WORD.to_be_bytes(), [0x36, 0x41, 0x99, 0x99]);
}

#[test]
fn packet_status_preserves_fractional_and_negative_snr() {
    assert_eq!(
        decode_packet_status([201, 0xfb, 205]),
        RadioMetadata {
            packet_rssi_centi_dbm: -10_050,
            snr_centi_db: -125,
            signal_rssi_centi_dbm: -10_250,
        }
    );
}

#[test]
fn status_validation_rejects_electrical_and_command_errors() {
    assert!(matches!(
        check_status(OP_GET_STATUS, 0x00),
        Err(RadioError::InvalidStatus {
            opcode: OP_GET_STATUS,
            status: 0x00
        })
    ));
    assert!(matches!(
        check_status(OP_SET_RX, 0x26),
        Err(RadioError::CommandRejected {
            opcode: OP_SET_RX,
            status: 0x26
        })
    ));
    assert!(check_status(OP_GET_STATUS, 0x22).is_ok());
    assert!(check_status(OP_GET_PACKET_TYPE, 0xa2).is_ok());
}

#[test]
fn only_a_clean_packet_is_read_from_the_buffer() {
    assert_eq!(event_without_packet(IRQ_RX_DONE), None);
    assert_eq!(
        event_without_packet(IRQ_RX_DONE | IRQ_CRC_ERROR),
        Some(ReceiveEvent::CrcError { irq: 0x0042 })
    );
    assert_eq!(
        event_without_packet(IRQ_HEADER_ERROR),
        Some(ReceiveEvent::HeaderError { irq: 0x0020 })
    );
    assert_eq!(
        event_without_packet(IRQ_RX_TX_TIMEOUT),
        Some(ReceiveEvent::RadioTimeout { irq: 0x0200 })
    );
    assert_eq!(event_without_packet(0x0100), Some(ReceiveEvent::OtherIrq(0x0100)));
    assert_eq!(
        IRQ_TERMINAL_MASK,
        IRQ_RX_DONE | IRQ_HEADER_ERROR | IRQ_CRC_ERROR | IRQ_RX_TX_TIMEOUT
    );
}

#[test]
fn commands_are_byte_exact() {
    let setup = setup_commands();
    assert_eq!(setup.len(), 10);
    assert_eq!(setup[0], [0x80, 0x00]);
    assert_eq!(setup[4], [0x0d, 0x07, 0x40, 0x14, 0x24]);
    assert_eq!(setup[7], [0x86, 0x36, 0x41, 0x99, 0x99]);
    assert_eq!(setup[8], [0x8b, 0x07, 0x04, 0x01, 0x00]);
    assert_eq!(setup[9], [0x8c, 0x00, 0x08, 0x00, 0xff, 0x01, 0x00]);
    let finish = finish_commands(0x09);
    assert_eq!(finish[0], [0x0d, 0x07, 0x36, 0x0d]);
    assert_eq!(finish[1], [0x0d, 0x08, 0xac, 0x94]);
    assert_eq!(finish[4], [0x08, 0x02, 0x62, 0x02, 0x62, 0, 0, 0, 0]);
    let receive = receive_commands();
    assert_eq!(receive, [vec![0x02, 0xff, 0xff], vec![0x82, 0xff, 0xff, 0xff]]);
    for command in setup.iter().chain(&finish).chain(&receive) {
        assert!(![0x83, 0xd1, 0xd2, 0x0e].contains(&command[0]));
    }
    assert_eq!(read_command(Query::PacketStatus), [0x14, 0, 0, 0, 0]);
    assert_eq!(read_register(0x0736, 1), [0x1d, 0x07, 0x36, 0, 0]);
    assert_eq!(read_buffer(0x80, 2), [0x1e, 0x80, 0, 0, 0]);
    assert_eq!(write_register(0x0102, &[3]), [0x0d, 1, 2, 3]);
}

#[test]
fn answers_stand_behind_their_status() {
    assert_eq!(
        command_answer(Query::RxBufferStatus, &[0xa2, 0xa2, 48, 3]),
        Ok(vec![48, 3])
    );
    assert_eq!(
        command_answer(Query::RxBufferStatus, &[0xa2, 0xff, 48, 3]),
        Err(RadioError::InvalidStatus { opcode: 0x13, status: 0xff })
    );
    assert_eq!(register_answer(&[0, 0, 0, 0, 9]), [9]);
    assert_eq!(buffer_answer(&[0, 0, 0, 7, 8]), [7, 8]);
    let packet = received_packet(vec![1, 2], [100, 8, 101]);
    assert_eq!(packet.payload, [1, 2]);
    assert_eq!(packet.metadata.packet_rssi_centi_dbm, -5_000);
    assert_eq!(packet.metadata.snr_centi_db, 200);
}

#[test]
fn radio_faults_are_found_and_described() {
    assert_eq!(ensure_mode(0x2a, MODE_STANDBY_RC), Ok(()));
    assert_eq!(
        ensure_mode(0x5a, MODE_STANDBY_RC).unwrap_err().message(),
        "SX1262 mode mismatch: expected 0x20, status was 0x5a"
    );
    assert_eq!(check_transfer(4, 4), Ok(()));
    assert_eq!(
        check_transfer(4, 3).unwrap_err().message(),
        "short SPI transfer: expected 4 bytes, transferred 3"
    );
    assert_eq!(check_packet_type(1), Ok(()));
    assert_eq!(
        check_packet_type(0).unwrap_err().message(),
        "SX1262 packet type readback was 0x00, not LoRa"
    );
    assert_eq!(check_sync_word([0x14, 0x24]), Ok(()));
    assert_eq!(
        check_sync_word([0x34, 0x44]).unwrap_err().message(),
        "SX1262 sync-word readback was 0x3444, expected 0x1424"
    );
    assert_eq!(check_device_errors([0, 0]), Ok(()));
    assert_eq!(
        check_device_errors([1, 2]).unwrap_err().message(),
        "SX1262 device error flags are set: 0x0102"
    );
    assert_eq!(
        RadioError::BusyTimeout.message(),
        "SX1262 BUSY remained high for one second"
    );
    assert_eq!(
        RadioError::CommandRejected { opcode: 0x82, status: 0x26 }.message(),
        "SX1262 rejected command 0x82 with status 0x26"
    );
    assert_eq!(
        RadioError::InvalidStatus { opcode: 0xc0, status: 0xff }.message(),
        "invalid SX1262 status byte 0xff for command 0xc0"
    );
}
