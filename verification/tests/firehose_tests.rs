use edl_client::firehose::{
    attr_lookup, find_data_end, firehose_benchmark, firehose_configure, firehose_get_default_sector_size,
    firehose_get_storage_info, firehose_handle_document, firehose_nop, firehose_parser_ack_nak,
    firehose_parser_configure_response, firehose_patch, firehose_peek, firehose_poke,
    firehose_program_storage, firehose_read_step, firehose_read_storage, firehose_recv_chunk,
    firehose_reset, firehose_set_bootable, firehose_write, firehose_write_getack,
    FirehoseAckOutcome, FirehoseConfiguration, FirehoseError, FirehoseReadAction,
    FirehoseResetMode, FirehoseStatus, FirehoseStorageType, QdlBackend,
};
use edl_client::xml::parse_document;

fn default_cfg() -> FirehoseConfiguration {
    FirehoseConfiguration::default()
}

#[test]
fn nop_document_text() {
    assert_eq!(
        firehose_nop(),
        "<?xml version=\"1.0\" ?>\n<data>\n<nop value=\"ping\"/>\n</data>\n"
    );
}

#[test]
fn reset_document_text() {
    assert_eq!(
        firehose_reset(&FirehoseResetMode::ResetToEdl, 0),
        "<?xml version=\"1.0\" ?>\n<data>\n<power value=\"reset_to_edl\" DelayInSeconds=\"0\"/>\n</data>\n"
    );
    assert_eq!(
        firehose_reset(&FirehoseResetMode::Reset, 0),
        "<?xml version=\"1.0\" ?>\n<data>\n<power value=\"reset\" DelayInSeconds=\"0\"/>\n</data>\n"
    );
}

#[test]
fn set_bootable_document_selects_slot() {
    // Slot B is storage drive two.
    assert_eq!(
        firehose_set_bootable(2),
        "<?xml version=\"1.0\" ?>\n<data>\n<setbootablestoragedrive value=\"2\"/>\n</data>\n"
    );
}

#[test]
fn configure_document_text() {
    let cfg = default_cfg();
    let doc = firehose_configure(&cfg, true);
    assert_eq!(
        doc,
        "<?xml version=\"1.0\" ?>\n<data>\n<configure AckRawDataEveryNumPackets=\"0\" \
         SkipWrite=\"1\" SkipStorageInit=\"1\" MemoryName=\"ufs\" AlwaysValidate=\"0\" \
         Verbose=\"0\" MaxDigestTableSizeInBytes=\"8192\" \
         MaxPayloadSizeToTargetInBytes=\"1048576\" ZLPAwareHost=\"1\"/>\n</data>\n"
    );
}

#[test]
fn misc_documents_compose() {
    let cfg = default_cfg();
    assert!(firehose_peek(4096, 16).contains("address64=\"4096\""));
    assert!(firehose_poke(4096, 8, 7).contains("value=\"7\""));
    assert!(firehose_benchmark(10, true).contains("TestWritePerformance=\"1\""));
    assert!(firehose_get_storage_info(0).contains("physical_partition_number=\"0\""));
    let patch = firehose_patch(&cfg, 92, 0, 5, 8, "NUM_DISK_SECTORS-5.", "0");
    assert!(patch.contains("filename=\"DISK\""));
    assert!(patch.contains("start_sector=\"NUM_DISK_SECTORS-5.\""));
}

#[test]
fn default_sector_sizes() {
    assert_eq!(firehose_get_default_sector_size("emmc"), Some(512));
    assert_eq!(firehose_get_default_sector_size("nvme"), Some(512));
    assert_eq!(firehose_get_default_sector_size("ufs"), Some(4096));
    assert_eq!(firehose_get_default_sector_size("nand"), Some(4096));
    assert_eq!(firehose_get_default_sector_size("spinor"), Some(4096));
    assert_eq!(firehose_get_default_sector_size("floppy"), None);
}

#[test]
fn storage_type_names() {
    assert_eq!(FirehoseStorageType::from_str("ufs"), Some(FirehoseStorageType::Ufs));
    assert_eq!(FirehoseStorageType::from_str("tape"), None);
    assert_eq!(FirehoseStorageType::Ufs.name(), "ufs");
    assert_eq!(QdlBackend::from_str("usb"), Some(QdlBackend::Usb));
    assert_eq!(FirehoseResetMode::from_str("system"), Some(FirehoseResetMode::Reset));
}

#[test]
fn program_chunks_cover_exactly_the_sectors() {
    let mut cfg = default_cfg();
    cfg.send_buffer_size = 8192;
    cfg.storage_sector_size = 4096;
    cfg.backend = QdlBackend::Usb;
    cfg.skip_usb_zlp = false;
    let plan = firehose_program_storage(&cfg, 5, 0, 0, "16");
    let total: usize = plan.chunks.iter().sum();
    assert_eq!(total, 5 * 4096);
    assert_eq!(plan.chunks, vec![8192, 8192, 4096]);
    assert!(plan.send_zlp);
    assert!(plan.doc.contains("num_partition_sectors=\"5\""));
    assert!(plan.doc.contains("start_sector=\"16\""));
}

#[test]
fn single_partition_write_plan() {
    // A 16384-byte image at 4096-byte sectors: four sectors, exactly
    // 16384 payload bytes, one terminal zero-length packet on USB.
    let mut cfg = default_cfg();
    cfg.backend = QdlBackend::Usb;
    cfg.skip_usb_zlp = false;
    let plan = firehose_program_storage(&cfg, 4, 0, 0, "0");
    assert!(plan.doc.contains("<program "));
    assert!(plan.doc.contains("num_partition_sectors=\"4\""));
    assert!(plan.doc.contains("SECTOR_SIZE_IN_BYTES=\"4096\""));
    let total: usize = plan.chunks.iter().sum();
    assert_eq!(total, 16384);
    assert!(plan.send_zlp);
}

#[test]
fn read_plan_totals() {
    let cfg = default_cfg();
    let (doc, total) = firehose_read_storage(&cfg, 6, 0, 0, 0);
    assert!(doc.contains("<read "));
    assert_eq!(total, 6 * 4096);
    assert_eq!(firehose_recv_chunk(10000, 4096), 4096);
    assert_eq!(firehose_recv_chunk(100, 4096), 100);
}

#[test]
fn outgoing_pad_rule() {
    let doc_ok = firehose_nop();
    let wire = firehose_write(doc_ok.as_str());
    assert_eq!(wire, doc_ok.as_bytes());
    // A document whose length is a positive multiple of 512 gets one
    // line feed appended.
    let exact: String = "x".repeat(512);
    let wire = firehose_write(exact.as_str());
    assert_eq!(wire.len(), 513);
    assert_eq!(wire[512], b'\n');
}

#[test]
fn framing_finds_the_document_end() {
    let buf = b"<data><response value=\"ACK\"/></data>extra";
    let end = find_data_end(buf).unwrap();
    assert_eq!(end, b"<data><response value=\"ACK\"/></data>".len());
    assert_eq!(find_data_end(b"<data><respo"), None);
}

#[test]
fn read_step_buffers_until_complete() {
    let mut pending = Vec::new();
    let (consumed, doc) = firehose_read_step(&mut pending, b"<data><response val");
    assert_eq!(consumed, b"<data><response val".len());
    assert!(doc.is_none());
    let (consumed, doc) = firehose_read_step(&mut pending, b"ue=\"ACK\"/></data>tail");
    assert_eq!(consumed, b"ue=\"ACK\"/></data>".len());
    let doc = doc.unwrap();
    assert_eq!(doc, b"<data><response value=\"ACK\"/></data>");
    assert!(pending.is_empty());
}

#[test]
fn ack_nak_parsing() {
    let doc = parse_document(b"<data><response value=\"ACK\" rawmode=\"false\"/></data>").unwrap();
    assert_eq!(firehose_parser_ack_nak(&doc.children[0].attrs), Ok(FirehoseStatus::Ack));
    let doc = parse_document(b"<data><response value=\"NAK\"/></data>").unwrap();
    assert_eq!(firehose_parser_ack_nak(&doc.children[0].attrs), Ok(FirehoseStatus::Nak));
    let doc = parse_document(b"<data><response value=\"maybe\"/></data>").unwrap();
    assert_eq!(
        firehose_parser_ack_nak(&doc.children[0].attrs),
        Err(FirehoseError::XmlParseFailed)
    );
}

#[test]
fn document_dispatch() {
    let doc = parse_document(b"<data><log value=\"hello there\"/></data>").unwrap();
    match firehose_handle_document(&doc) {
        FirehoseReadAction::EmitLog(Some(text)) => assert_eq!(text, "hello there"),
        _ => panic!("log entries are surfaced"),
    }
    let doc = parse_document(b"<data><response value=\"ACK\" AttemptRetry=\"1\"/></data>").unwrap();
    assert!(matches!(firehose_handle_document(&doc), FirehoseReadAction::Retry));
    let doc = parse_document(b"<notdata><x/></notdata>").unwrap();
    assert!(matches!(firehose_handle_document(&doc), FirehoseReadAction::BadRoot));
    let doc = parse_document(b"<data><response value=\"ACK\"/></data>").unwrap();
    assert!(matches!(firehose_handle_document(&doc), FirehoseReadAction::Dispatch));
}

#[test]
fn write_getack_outcomes() {
    assert!(matches!(
        firehose_write_getack(FirehoseStatus::Ack),
        FirehoseAckOutcome::Proceed
    ));
    match firehose_write_getack(FirehoseStatus::Nak) {
        FirehoseAckOutcome::ResetAndFail(doc) => {
            assert_eq!(doc, firehose_reset(&FirehoseResetMode::ResetToEdl, 0));
        }
        _ => panic!("a refusal resets the device to EDL"),
    }
}

#[test]
fn configure_response_accepts_and_keeps_invariant() {
    let cfg = default_cfg();
    let doc = parse_document(
        b"<data><response value=\"ACK\" MinVersionSupported=\"1\" \
          MemoryName=\"UFS\" MaxPayloadSizeFromTargetInBytes=\"4096\" \
          MaxPayloadSizeToTargetInBytes=\"1048576\" \
          MaxPayloadSizeToTargetInBytesSupported=\"1048576\" \
          MaxXMLSizeInBytes=\"4096\" Version=\"1\"/></data>",
    )
    .unwrap();
    let r = firehose_parser_configure_response(&cfg, &doc.children[0].attrs).unwrap();
    assert!(!r.resend);
    assert_eq!(r.config.send_buffer_size, 1048576);
    assert_eq!(r.config.xml_buf_size, 4096);
    assert_eq!(r.config.send_buffer_size % r.config.storage_sector_size, 0);
}

#[test]
fn configure_response_resends_for_larger_buffer() {
    let cfg = default_cfg();
    let doc = parse_document(
        b"<data><response value=\"ACK\" MinVersionSupported=\"1\" \
          MaxPayloadSizeToTargetInBytes=\"1048576\" \
          MaxPayloadSizeToTargetInBytesSupported=\"16777216\" \
          MaxXMLSizeInBytes=\"4096\" Version=\"1\"/></data>",
    )
    .unwrap();
    let r = firehose_parser_configure_response(&cfg, &doc.children[0].attrs).unwrap();
    assert!(r.resend);
    assert_eq!(r.config.send_buffer_size, 16777216);
}

#[test]
fn configure_response_failures() {
    let cfg = default_cfg();
    // A refusal without a proposed payload size cannot be recovered.
    let doc = parse_document(b"<data><response value=\"NAK\"/></data>").unwrap();
    assert_eq!(
        firehose_parser_configure_response(&cfg, &doc.children[0].attrs),
        Err(FirehoseError::BufferSizeMismatch)
    );
    // A device demanding a newer protocol is refused.
    let doc = parse_document(
        b"<data><response value=\"ACK\" MinVersionSupported=\"0\" \
          MaxPayloadSizeToTargetInBytes=\"1048576\" \
          MaxPayloadSizeToTargetInBytesSupported=\"1048576\" \
          MaxXMLSizeInBytes=\"4096\" Version=\"1\"/></data>",
    )
    .unwrap();
    assert_eq!(
        firehose_parser_configure_response(&cfg, &doc.children[0].attrs),
        Err(FirehoseError::VersionTooOld)
    );
    // A proposed size that breaks the sector-multiple invariant is refused.
    let doc = parse_document(
        b"<data><response value=\"ACK\" MinVersionSupported=\"1\" \
          MaxPayloadSizeToTargetInBytes=\"1000\" \
          MaxPayloadSizeToTargetInBytesSupported=\"1000\" \
          MaxXMLSizeInBytes=\"4096\" Version=\"1\"/></data>",
    )
    .unwrap();
    assert_eq!(
        firehose_parser_configure_response(&cfg, &doc.children[0].attrs),
        Err(FirehoseError::BufferSizeMismatch)
    );
    // A response missing required fields is malformed.
    let doc = parse_document(b"<data><response value=\"ACK\"/></data>").unwrap();
    assert_eq!(
        firehose_parser_configure_response(&cfg, &doc.children[0].attrs),
        Err(FirehoseError::XmlParseFailed)
    );
}

#[test]
fn attr_lookup_first_binding_wins() {
    let doc = parse_document(b"<data><x a=\"1\" a=\"2\" b=\"3\"/></data>").unwrap();
    assert_eq!(attr_lookup(&doc.children[0].attrs, "a"), Some("1".to_string()));
    assert_eq!(attr_lookup(&doc.children[0].attrs, "b"), Some("3".to_string()));
    assert_eq!(attr_lookup(&doc.children[0].attrs, "c"), None);
}

#[test]
fn session_invariant_on_default() {
    let cfg = default_cfg();
    assert!(cfg.send_buffer_size > 0);
    assert_eq!(cfg.send_buffer_size % cfg.storage_sector_size, 0);
}
