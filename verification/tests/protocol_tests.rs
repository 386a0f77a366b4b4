use edl_client::sahara::{
    cmd_code, cmd_of_code, decode_packet, encode_packet, sahara_chip_serial,
    sahara_oem_key_hash, sahara_parse_ramdump_table, sahara_read_mem64, sahara_reset,
    sahara_send_cmd_data, sahara_send_cmd_exec, sahara_send_done, sahara_send_hello_rsp,
    sahara_send_img_to_device, sahara_step, sahara_switch_mode, SaharaCmd, SaharaCmdModeCmd,
    SaharaError, SaharaMode, SaharaPacket, SaharaPacketBody, SaharaStep, DoneResp, Eoi,
    ExecResp,
};

fn le32(x: u32) -> Vec<u8> {
    vec![
        (x & 0xff) as u8,
        ((x >> 8) & 0xff) as u8,
        ((x >> 16) & 0xff) as u8,
        ((x >> 24) & 0xff) as u8,
    ]
}

#[test]
fn hello_resp_wire_layout() {
    let bytes = sahara_send_hello_rsp(SaharaMode::Command);
    assert_eq!(bytes.len(), 48);
    // cmd 0x02, len 48, ver 2, compatible 1, status 0, mode 3, six reserved words
    let mut expected = Vec::new();
    expected.extend_from_slice(&le32(0x02));
    expected.extend_from_slice(&le32(48));
    expected.extend_from_slice(&le32(2));
    expected.extend_from_slice(&le32(1));
    expected.extend_from_slice(&le32(0));
    expected.extend_from_slice(&le32(3));
    for _ in 0..6 {
        expected.extend_from_slice(&le32(0));
    }
    assert_eq!(bytes, expected);
}

#[test]
fn done_packet_is_eight_bytes() {
    let bytes = sahara_send_done();
    let mut expected = le32(0x05);
    expected.extend_from_slice(&le32(8));
    assert_eq!(bytes, expected);
}

#[test]
fn packet_len_is_eight_plus_body() {
    // Every host-serialized packet announces 8 + body size in its length
    // field.
    for bytes in [
        sahara_send_hello_rsp(SaharaMode::WaitingForImage),
        sahara_send_done(),
        sahara_send_cmd_exec(SaharaCmdModeCmd::ReadSerialNum),
        sahara_send_cmd_data(SaharaCmdModeCmd::ReadOemKeyHash),
        sahara_reset(),
        sahara_switch_mode(SaharaMode::WaitingForImage),
        sahara_read_mem64(0x1000, 224),
    ] {
        let len_field = u32::from_le_bytes([bytes[4], bytes[5], bytes[6], bytes[7]]);
        assert_eq!(len_field as usize, bytes.len());
    }
}

#[test]
fn decode_then_reencode_is_byte_equal() {
    // An end-of-image packet straight off the wire.
    let mut wire = le32(0x04);
    wire.extend_from_slice(&le32(16));
    wire.extend_from_slice(&le32(0)); // image
    wire.extend_from_slice(&le32(0)); // status
    let pkt = decode_packet(&wire).unwrap();
    assert_eq!(pkt.cmd, SaharaCmd::SaharaEndOfImage);
    assert_eq!(pkt.len, 16);
    assert_eq!(encode_packet(&pkt), wire);
}

#[test]
fn encode_then_decode_returns_the_packet() {
    let pkt = SaharaPacket {
        cmd: SaharaCmd::SaharaDoneResp,
        len: 12,
        body: SaharaPacketBody::DoneResp(DoneResp { status: 1 }),
    };
    let bytes = encode_packet(&pkt);
    assert_eq!(decode_packet(&bytes).unwrap(), pkt);
}

#[test]
fn decode_rejects_unknown_opcode() {
    let mut wire = le32(0x99);
    wire.extend_from_slice(&le32(8));
    assert_eq!(decode_packet(&wire), Err(SaharaError::UnexpectedOpcode));
}

#[test]
fn decode_rejects_wrong_length_field() {
    let mut wire = le32(0x06); // DoneResp wants len 12
    wire.extend_from_slice(&le32(16));
    wire.extend_from_slice(&le32(0));
    assert_eq!(decode_packet(&wire), Err(SaharaError::BodyLengthMismatch));
}

#[test]
fn decode_rejects_short_buffer() {
    assert_eq!(decode_packet(&[1, 0, 0]), Err(SaharaError::PacketTooShort));
}

#[test]
fn decode_accepts_firehose_sentinel() {
    // "<?xm" then "l ve": the device is already in Firehose mode.
    let wire = b"<?xml version".to_vec();
    let pkt = decode_packet(&wire).unwrap();
    assert_eq!(pkt.cmd, SaharaCmd::SaharaXML);
}

#[test]
fn cmd_codes_roundtrip() {
    for c in [
        SaharaCmd::SaharaHello,
        SaharaCmd::SaharaDoneResp,
        SaharaCmd::SaharaMemDebug64,
        SaharaCmd::SaharaXML,
    ] {
        assert_eq!(cmd_of_code(cmd_code(c)), Some(c));
    }
}

#[test]
fn image_window_selection() {
    let images = vec![vec![10u8, 11, 12, 13, 14, 15]];
    // With a single image every request maps to it, whatever the index.
    let window = sahara_send_img_to_device(&images, 7, 2, 3).unwrap();
    assert_eq!(window, vec![12, 13, 14]);
}

#[test]
fn image_window_out_of_range() {
    let images = vec![vec![0u8; 4], vec![0u8; 4]];
    assert_eq!(
        sahara_send_img_to_device(&images, 0, 2, 3),
        Err(SaharaError::UploadRangeOob)
    );
    assert_eq!(
        sahara_send_img_to_device(&images, 5, 0, 1),
        Err(SaharaError::UploadRangeOob)
    );
}

#[test]
fn step_answers_hello_with_hello_resp() {
    let hello = decode_packet(&{
        let mut w = le32(0x01);
        w.extend_from_slice(&le32(48));
        w.extend_from_slice(&le32(2));
        w.extend_from_slice(&le32(1));
        w.extend_from_slice(&le32(4096));
        w.extend_from_slice(&le32(0));
        for _ in 0..6 {
            w.extend_from_slice(&le32(0));
        }
        w
    })
    .unwrap();
    match sahara_step(SaharaMode::WaitingForImage, None, 1, &hello) {
        SaharaStep::Reply(bytes) => {
            assert_eq!(bytes, sahara_send_hello_rsp(SaharaMode::WaitingForImage));
        }
        _ => panic!("hello must be answered with a hello response"),
    }
}

#[test]
fn step_finishes_on_done_resp_with_single_image() {
    let pkt = SaharaPacket {
        cmd: SaharaCmd::SaharaDoneResp,
        len: 12,
        body: SaharaPacketBody::DoneResp(DoneResp { status: 0 }),
    };
    match sahara_step(SaharaMode::WaitingForImage, None, 1, &pkt) {
        SaharaStep::FinishEmpty => {}
        _ => panic!("single-image done response must finish the session"),
    }
}

#[test]
fn step_sends_done_on_good_end_of_image() {
    let pkt = SaharaPacket {
        cmd: SaharaCmd::SaharaEndOfImage,
        len: 16,
        body: SaharaPacketBody::Eoi(Eoi { image: 0, status: 0 }),
    };
    match sahara_step(SaharaMode::WaitingForImage, None, 1, &pkt) {
        SaharaStep::Reply(bytes) => assert_eq!(bytes, sahara_send_done()),
        _ => panic!("a clean end of image is acknowledged with done"),
    }
}

#[test]
fn step_fails_command_ready_without_command() {
    let pkt = SaharaPacket {
        cmd: SaharaCmd::SaharaCommandReady,
        len: 8,
        body: SaharaPacketBody::CommandReady(edl_client::sahara::CommandReady {}),
    };
    match sahara_step(SaharaMode::Command, None, 0, &pkt) {
        SaharaStep::Fail(e) => assert_eq!(e, SaharaError::MissingCommand),
        _ => panic!("command mode without a command must fail"),
    }
}

#[test]
fn step_runs_the_execute_exchange() {
    let pkt = SaharaPacket {
        cmd: SaharaCmd::SaharaExecuteResp,
        len: 16,
        body: SaharaPacketBody::ExecResp(ExecResp {
            command: SaharaCmdModeCmd::ReadSerialNum,
            len: 4,
        }),
    };
    match sahara_step(SaharaMode::Command, Some(SaharaCmdModeCmd::ReadSerialNum), 0, &pkt) {
        SaharaStep::ExecuteExchange { request, response_len, switch } => {
            assert_eq!(request, sahara_send_cmd_data(SaharaCmdModeCmd::ReadSerialNum));
            assert_eq!(response_len, 4);
            assert_eq!(switch, sahara_switch_mode(SaharaMode::WaitingForImage));
        }
        _ => panic!("an execute response starts the data exchange"),
    }
}

#[test]
fn ramdump_table_rows() {
    let mut buf = Vec::new();
    buf.extend_from_slice(&1u64.to_le_bytes());
    buf.extend_from_slice(&0x8000_0000u64.to_le_bytes());
    buf.extend_from_slice(&0x1000u64.to_le_bytes());
    let mut desc = [0u8; 20];
    desc[..4].copy_from_slice(b"DDR0");
    buf.extend_from_slice(&desc);
    let mut name = [0u8; 20];
    name[..7].copy_from_slice(b"ddr.bin");
    buf.extend_from_slice(&name);
    let rows = sahara_parse_ramdump_table(&buf);
    assert_eq!(rows.len(), 1);
    assert_eq!(rows[0].save_pref, 1);
    assert_eq!(rows[0].base, 0x8000_0000);
    assert_eq!(rows[0].len, 0x1000);
    assert_eq!(&rows[0].filename[..7], b"ddr.bin");
}

#[test]
fn command_mode_report_formatting() {
    // The serial is the first little-endian word, shown in lower hex.
    let reply = [0x4d, 0x3c, 0x2b, 0x1a, 9, 9];
    assert_eq!(sahara_chip_serial(&reply).unwrap(), "0x1a2b3c4d");
    assert!(sahara_chip_serial(&[1, 2, 3]).is_none());
    // The key hash shows the first third of the reply.
    let reply = [0xab, 0xcd, 0xef, 0, 0, 0, 0, 0, 0];
    assert_eq!(sahara_oem_key_hash(&reply), "0xabcdef");
    assert_eq!(sahara_oem_key_hash(&[]), "0x");
}
