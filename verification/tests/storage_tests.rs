use edl_client::gpt::{
    parse_gpt_raw, serialize_gpt_raw, GptError, GptParser, PartitionEntry, RawGptEntry,
};
use edl_client::loader::{identify_loader, parser_key_hash, sha384_hex, soc_marketing_name};
use edl_client::strings::{hex_of_bytes, parse_dec_str, parse_u64_dec, u64_to_dec};

/// A 72-byte UTF-16LE name field for an ASCII name.
fn name_units(name: &str) -> Vec<u8> {
    let mut units = vec![0u8; 72];
    for (i, b) in name.bytes().enumerate() {
        units[2 * i] = b;
    }
    units
}

fn sample_entries() -> Vec<RawGptEntry> {
    vec![
        RawGptEntry { first_lba: 6, last_lba: 9, name_units: name_units("misc") },
        RawGptEntry { first_lba: 10, last_lba: 265, name_units: name_units("boot_a") },
    ]
}

#[test]
fn gpt_serialize_then_parse_roundtrip() {
    let entries = sample_entries();
    let image = serialize_gpt_raw(&entries, 4096);
    let parsed = parse_gpt_raw(&image, 4096).unwrap();
    assert_eq!(parsed.len(), entries.len());
    for (p, e) in parsed.iter().zip(entries.iter()) {
        assert_eq!(p.first_lba, e.first_lba);
        assert_eq!(p.last_lba, e.last_lba);
        assert_eq!(p.name_units, e.name_units);
    }
}

#[test]
fn gpt_parser_decodes_names() {
    let entries = sample_entries();
    let image = serialize_gpt_raw(&entries, 4096);
    let mut parser = GptParser::new();
    parser.parse(&image, 4096).unwrap();
    assert_eq!(parser.partition_count(), 2);
    let parts = parser.partitions();
    assert_eq!(parts[0].name, "misc");
    assert_eq!(parts[0].first_lba, 6);
    assert_eq!(parts[0].last_lba, 9);
    assert_eq!(parts[1].name, "boot_a");
    assert_eq!(parts[0].size_in_sectors(), 4);
    assert_eq!(parts[0].size_in_bytes(4096), 16384);
}

#[test]
fn gpt_lookup_is_case_insensitive() {
    let image = serialize_gpt_raw(&sample_entries(), 4096);
    let mut parser = GptParser::new();
    parser.parse(&image, 4096).unwrap();
    let hit = parser.find_partition_by_name("MISC").unwrap();
    assert_eq!(hit.name, "misc");
    assert!(parser.find_partition_by_name("vendor").is_none());
    assert!(parser.get_partition(1).is_some());
    assert!(parser.get_partition(2).is_none());
    assert_eq!(parser.total_disk_size(100), 409600);
}

#[test]
fn gpt_rejects_bad_signature() {
    let mut image = serialize_gpt_raw(&sample_entries(), 4096);
    image[4096] = b'X';
    assert_eq!(parse_gpt_raw(&image, 4096), Err(GptError::InvalidSignature));
}

#[test]
fn gpt_rejects_short_buffer() {
    assert_eq!(parse_gpt_raw(&[0u8; 100], 4096), Err(GptError::InsufficientData));
}

#[test]
fn gpt_rejects_entries_out_of_bounds() {
    let mut image = serialize_gpt_raw(&sample_entries(), 4096);
    // Point the entry array past the end of the buffer.
    let start = 4096 + 72;
    image[start..start + 8].copy_from_slice(&u64::MAX.to_le_bytes());
    assert_eq!(parse_gpt_raw(&image, 4096), Err(GptError::EntryOutOfBounds));
}

#[test]
fn gpt_rejects_truncated_entry_array() {
    // Chop the last row in half: the table must be rejected, not
    // silently shortened.
    let mut image = serialize_gpt_raw(&sample_entries(), 4096);
    let cut = image.len() - 64;
    image.truncate(cut);
    assert_eq!(parse_gpt_raw(&image, 4096), Err(GptError::EntryOutOfBounds));
}

#[test]
fn gpt_skips_unused_rows() {
    let entries = sample_entries();
    let mut image = serialize_gpt_raw(&entries, 4096);
    // Zero the first row's type GUID: the row no longer counts.
    let row = 2 * 4096;
    for b in image[row..row + 16].iter_mut() {
        *b = 0;
    }
    let parsed = parse_gpt_raw(&image, 4096).unwrap();
    assert_eq!(parsed.len(), 1);
    assert_eq!(parsed[0].first_lba, 10);
}

#[test]
fn partition_entry_arithmetic() {
    let e = PartitionEntry { name: "super".to_string(), first_lba: 100, last_lba: 101 };
    assert_eq!(e.size_in_sectors(), 2);
    assert_eq!(e.size_in_bytes(512), 1024);
}

#[test]
fn loader_identifies_known_soc() {
    let mut blob = vec![0u8; 64];
    blob.extend_from_slice(b"QCOM\0SM8550\0rest");
    assert_eq!(identify_loader(&blob), "SM8550 (Snapdragon 8 Gen 2)");
}

#[test]
fn loader_reports_unknown_soc() {
    let mut blob = vec![0u8; 16];
    blob.extend_from_slice(b"QCOM\0XY123\0");
    assert_eq!(identify_loader(&blob), "XY123 (Unknown)");
    assert_eq!(identify_loader(b"no tag here"), " (Unknown)");
}

#[test]
fn soc_table_lookups() {
    assert_eq!(soc_marketing_name("SM8650").unwrap(), "Snapdragon 8 Gen 3");
    assert_eq!(soc_marketing_name("SM4250").unwrap(), "Snapdragon 460");
    assert!(soc_marketing_name("SM0000").is_none());
}

#[test]
fn sha384_hex_of_empty_input() {
    // The well-known SHA-384 digest of the empty byte string; this would
    // fail if the digest wrapper handed its input back.
    assert_eq!(
        sha384_hex(b""),
        "38b060a751ac96384cd9327eb1b1e36a21fdb71114be07434c0cc7bf63f6e1da274edebfe76f65fbd51ad2f14898b95b"
    );
    assert_eq!(sha384_hex(b"abc").len(), 96);
}

#[test]
fn key_hash_scan_ignores_non_certificates() {
    // The DER pattern with garbage behind it parses as no certificate.
    let mut blob = vec![0u8; 8];
    blob.extend_from_slice(&[0x30, 0x82, 0x00, 0x04, 0x30, 0x82, 1, 2]);
    assert!(parser_key_hash(&blob).is_empty());
    assert!(parser_key_hash(b"plain text").is_empty());
}

#[test]
fn decimal_rendering_and_parsing() {
    assert_eq!(u64_to_dec(0), "0");
    assert_eq!(u64_to_dec(1234567890), "1234567890");
    assert_eq!(u64_to_dec(u64::MAX), "18446744073709551615");
    assert_eq!(parse_u64_dec(b"0"), Some(0));
    assert_eq!(parse_u64_dec(b"4096"), Some(4096));
    assert_eq!(parse_u64_dec(b""), None);
    assert_eq!(parse_u64_dec(b"12x"), None);
    assert_eq!(parse_u64_dec(b"18446744073709551616"), None);
    assert_eq!(parse_dec_str("18446744073709551615"), Some(u64::MAX));
}

#[test]
fn hex_rendering() {
    assert_eq!(hex_of_bytes(&[]), "");
    assert_eq!(hex_of_bytes(&[0x00, 0xab, 0x0f]), "00ab0f");
}
