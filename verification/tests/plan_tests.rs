use edl_client::info::{analysis_info, find_hex_token, select_port, str_contains, PortCandidate};
use edl_client::orchestrator::{
    flash_patch_step, flash_program_progress, flash_program_step, FlashStepPlan,
    OrchestratorState,
};
use edl_client::package::{
    classify_program_entry, edl_collect_programs, is_skip_label, pick_super_define,
    CheckFileError, PlanAction,
};
use edl_client::superimg::{
    lpmake_args, BlockDevice, Group, Partition, PartitionConfig, SuperMeta,
};
use edl_client::tags::{
    create_program_dynamic, create_read_tag_dynamic, parse_file_path, parser_program_entries,
    parser_program_xml_skip_empty, parser_read_xml, to_xml_doc, Program,
};
use edl_client::xml::{parse_document, xml_escape};

#[test]
fn program_tag_composition() {
    // A partition found in a GPT: label misc, four sectors at LBA six.
    let p = create_program_dynamic(0, 6, 4, "misc");
    assert_eq!(p.start_sector, "6");
    assert_eq!(p.size_in_kb_tenths, 160); // 16.0 KB
    assert_eq!(p.filename, "misc.img");
    assert_eq!(p.start_byte_hex, "6000");
    let xml = p.to_xml();
    assert_eq!(
        xml,
        "<program start_sector=\"6\" size_in_KB=\"16.0\" physical_partition_number=\"0\" \
         partofsingleimage=\"0\" file_sector_offset=\"0\" num_partition_sectors=\"4\" \
         readbackverify=\"0\" filename=\"misc.img\" sparse=\"0\" start_byte_hex=\"6000\" \
         SECTOR_SIZE_IN_BYTES=\"4096\" label=\"misc\"/>"
    );
}

#[test]
fn read_tag_composition() {
    let t = create_read_tag_dynamic("gpt_main0.bin", 0, 0, 6, "PrimaryGPT");
    let xml = t.to_xml();
    assert_eq!(
        xml,
        "<read filename=\"gpt_main0.bin\" physical_partition_number=\"0\" \
         label=\"PrimaryGPT\" start_sector=\"0\" num_partition_sectors=\"6\" \
         SECTOR_SIZE_IN_BYTES=\"4096\" sparse=\"0\"/>"
    );
}

#[test]
fn tag_documents_parse_back() {
    // Serialize one program entry and read it back: every field returns.
    let p = create_program_dynamic(3, 1024, 256, "vendor_boot");
    let doc = to_xml_doc(p.to_xml().as_str());
    let entries = parser_program_entries(doc.as_str()).unwrap();
    assert_eq!(entries.len(), 1);
    assert_eq!(entries[0], p);
}

#[test]
fn plan_parsers_split_documents() {
    let a = create_program_dynamic(0, 6, 4, "misc");
    let b = create_program_dynamic(0, 10, 8, "boot");
    let mut plan = String::from("<?xml version=\"1.0\" ?>\n<data>\n");
    plan.push_str(a.to_xml().as_str());
    plan.push_str("\n");
    plan.push_str(b.to_xml().as_str());
    plan.push_str("\n</data>\n");
    let items = parser_program_xml_skip_empty("", plan.as_str());
    assert_eq!(items.len(), 2);
    assert_eq!(items[0].0, "misc");
    assert_eq!(items[0].1, "misc.img");
    assert!(items[0].2.contains("label=\"misc\""));
    assert_eq!(items[1].0, "boot");
}

#[test]
fn read_plan_parser() {
    let t = create_read_tag_dynamic("gpt_main1.bin", 1, 0, 6, "PrimaryGPT");
    let doc = to_xml_doc(t.to_xml().as_str());
    let items = parser_read_xml(doc.as_str());
    assert_eq!(items.len(), 1);
    assert_eq!(items[0].0, "PrimaryGPT");
    assert!(items[0].1.contains("filename=\"gpt_main1.bin\""));
}

#[test]
fn malformed_plan_yields_nothing() {
    assert!(parser_program_entries("<data><program/></data>").is_none());
    assert!(parser_program_entries("not xml at all").is_none());
    assert!(parser_program_entries("<other><program/></other>").is_none());
}

#[test]
fn path_splitting() {
    assert_eq!(
        parse_file_path("", "IMAGES/boot.img"),
        ("boot.img".to_string(), "IMAGES".to_string())
    );
    assert_eq!(
        parse_file_path("pkg", "IMAGES/boot.img"),
        ("boot.img".to_string(), "pkg/IMAGES".to_string())
    );
    assert_eq!(parse_file_path("", "boot.img"), ("boot.img".to_string(), "".to_string()));
}

#[test]
fn xml_escaping() {
    assert_eq!(xml_escape("a<b>&\"'"), "a&lt;b&gt;&amp;&quot;&apos;");
    assert_eq!(xml_escape("plain"), "plain");
    let doc = parse_document(b"<data><x v=\"1\"/></data>").unwrap();
    assert_eq!(doc.root.name, "data");
    assert_eq!(doc.children[0].name, "x");
}

#[test]
fn skip_list_classification() {
    assert!(is_skip_label("persist"));
    assert!(!is_skip_label("boot"));
    assert_eq!(classify_program_entry("super", true), PlanAction::IncludeSuper);
    assert_eq!(classify_program_entry("ocdt", true), PlanAction::Ignore);
    assert_eq!(classify_program_entry("boot", true), PlanAction::MissingAsset);
    assert_eq!(classify_program_entry("boot", false), PlanAction::Include);
    assert_eq!(classify_program_entry("persist", false), PlanAction::Ignore);
}

#[test]
fn plan_collection_keeps_order_and_flags() {
    let items = vec![
        ("boot".to_string(), false, "<boot doc/>".to_string()),
        ("persist".to_string(), false, "<persist doc/>".to_string()),
        ("super".to_string(), true, "<super doc/>".to_string()),
        ("vendor".to_string(), false, "<vendor doc/>".to_string()),
    ];
    let (kept, build_super) = edl_collect_programs(&items).unwrap();
    assert!(build_super);
    let labels: Vec<&str> = kept.iter().map(|p| p.0.as_str()).collect();
    assert_eq!(labels, vec!["boot", "super", "vendor"]);
}

#[test]
fn plan_collection_fails_on_missing_asset() {
    let items = vec![
        ("boot".to_string(), false, "<boot doc/>".to_string()),
        ("vendor".to_string(), true, "<vendor doc/>".to_string()),
    ];
    assert_eq!(edl_collect_programs(&items), Err(CheckFileError::InvalidPath));
}

#[test]
fn super_define_choice() {
    assert_eq!(pick_super_define(&vec![]), None);
    let files = vec!["a.json".to_string(), "b.json".to_string()];
    assert_eq!(pick_super_define(&files), Some("b.json".to_string()));
}

#[test]
fn lpmake_argument_list() {
    let cfg = PartitionConfig {
        super_meta: SuperMeta { path: "super.img".to_string(), size: "65536".to_string() },
        nv_text: String::new(),
        block_devices: vec![BlockDevice {
            block_size: "4096".to_string(),
            name: "super".to_string(),
            alignment: "1048576".to_string(),
            size: "12884901888".to_string(),
        }],
        groups: vec![
            Group { name: "qti_dynamic_partitions_a".to_string(), maximum_size: "6442450944".to_string() },
            Group { name: "qti_dynamic_partitions_b".to_string(), maximum_size: String::new() },
        ],
        nv_id: String::new(),
        partitions: vec![
            Partition {
                is_dynamic: true,
                name: "system_a".to_string(),
                group_name: "qti_dynamic_partitions_a".to_string(),
                path: "system.img".to_string(),
                size: "1048576".to_string(),
            },
            Partition {
                is_dynamic: true,
                name: "system_b".to_string(),
                group_name: "qti_dynamic_partitions_b".to_string(),
                path: String::new(),
                size: String::new(),
            },
        ],
    };
    let args = lpmake_args(&cfg).unwrap();
    assert_eq!(
        args,
        vec![
            "--device-size=12884901888",
            "--metadata-size=65536",
            "--metadata-slots=2",
            "--super-name=super",
            "--virtual-ab",
            "--block-size=4096",
            "--sparse",
            "--group=qti_dynamic_partitions_a:6442450944",
            "--partition",
            "system_a:readonly:1048576:qti_dynamic_partitions_a",
            "--image",
            "system_a=system.img",
            "--partition",
            "system_b:none:0:qti_dynamic_partitions_b",
            "-F",
            "--output",
            "IMAGES/super.img",
        ]
    );
    let empty = PartitionConfig {
        super_meta: SuperMeta { path: String::new(), size: String::new() },
        nv_text: String::new(),
        block_devices: vec![],
        groups: vec![],
        nv_id: String::new(),
        partitions: vec![],
    };
    assert!(lpmake_args(&empty).is_none());
}

#[test]
fn orchestrator_single_run() {
    let mut s = OrchestratorState::new();
    assert!(s.start());
    assert!(!s.start()); // re-entry while running starts nothing
    assert!(s.stop());
    assert!(!s.stop());
}

#[test]
fn progress_anchors() {
    assert_eq!(flash_program_progress(40, 100), 44);
    assert_eq!(flash_program_progress(100, 100), 80);
    assert_eq!(flash_program_progress(1, 1), 80);
}

#[test]
fn cancellation_stops_progress_reports() {
    // After forty steps a stop arrives: the plan carries no percentage,
    // only the cancellation line.
    match flash_program_step(false, "system_a", 40, 100) {
        FlashStepPlan::Proceed { percentage, log } => {
            assert_eq!(percentage, 44);
            assert_eq!(log, "Flash partition: system_a");
        }
        _ => panic!("without a stop the run proceeds"),
    }
    match flash_program_step(true, "system_a", 41, 100) {
        FlashStepPlan::Cancel { log } => assert_eq!(log, "Operation canceled by user"),
        _ => panic!("a requested stop cancels the step"),
    }
    match flash_patch_step(true, "patch0.xml", 1, 6) {
        FlashStepPlan::Cancel { log } => assert_eq!(log, "Operation canceled by user"),
        _ => panic!("a requested stop cancels the patch step"),
    }
}

#[test]
fn device_report_analysis() {
    let report = "Device Total Physical Partitions: 0x6\n\
                  Device Serial Number: 0x1a2b3c4d\n\
                  UFS Inquiry Command Output: 'KIOXIA THGJFGT1E45BATPC '\n\
                  Boot Partition Enabled: 0x1\n";
    let out = analysis_info(report);
    assert!(out.contains("\n Device Total Physical Partitions:6"));
    assert!(out.contains("\n Device Serial Number:0x1a2b3c4d"));
    assert!(out.contains("\n Storage:KIOXIA THGJFGT1E45BATPC"));
    assert!(out.contains("\n Active slot:A"));
    let report_b = "Boot Partition Enabled: 0x2\n";
    assert!(analysis_info(report_b).contains("\n Active slot:B"));
}

#[test]
fn hex_token_extraction() {
    assert_eq!(find_hex_token("serial 0xDEAD rest"), Some("0xDEAD".to_string()));
    assert_eq!(find_hex_token("no token"), None);
    assert!(str_contains("abc def", "c d"));
    assert!(!str_contains("abc", "zzz"));
}

#[test]
fn port_selection() {
    let none: Vec<PortCandidate> = vec![];
    assert_eq!(select_port(&none), ("Not found".to_string(), "N/A".to_string()));
    let ports = vec![
        PortCandidate { name: "/dev/ttyS0".to_string(), is_usb: false, product: None },
        PortCandidate {
            name: "/dev/ttyUSB0".to_string(),
            is_usb: true,
            product: Some("QUSB_BULK".to_string()),
        },
    ];
    let (path, product) = select_port(&ports);
    assert_eq!(path, "/dev/ttyUSB0");
    assert_eq!(product, "QUSB_BULK");
    // With several USB candidates the first one wins.
    let two = vec![
        PortCandidate {
            name: "/dev/ttyUSB0".to_string(),
            is_usb: true,
            product: Some("QUSB_BULK".to_string()),
        },
        PortCandidate {
            name: "/dev/ttyUSB1".to_string(),
            is_usb: true,
            product: Some("OTHER".to_string()),
        },
    ];
    assert_eq!(select_port(&two).0, "/dev/ttyUSB0");
}

#[test]
fn program_entry_equality_after_reparse() {
    let p = Program {
        start_sector: "0".to_string(),
        size_in_kb_tenths: 5,
        physical_partition_number: 5,
        part_of_single_image: true,
        file_sector_offset: 2,
        num_partition_sectors: 1,
        readback_verify: true,
        filename: "x.img".to_string(),
        sparse: true,
        start_byte_hex: "0".to_string(),
        sector_size_in_bytes: 512,
        label: "x".to_string(),
    };
    let doc = to_xml_doc(p.to_xml().as_str());
    let back = parser_program_entries(doc.as_str()).unwrap();
    assert_eq!(back[0], p);
}

#[test]
fn gpt_dump_payload() {
    // A partition table payload: each child covers one GPT entry, with
    // start_sector the first LBA and the sector count of the window.
    let mut root = edl_client::tags::DataRoot::new();
    root.programs.push(create_program_dynamic(0, 6, 4, "misc"));
    root.programs.push(create_program_dynamic(5, 10, 256, "boot_a"));
    let xml = root.to_xml();
    assert!(xml.starts_with("<data><program start_sector=\"6\""));
    assert!(xml.ends_with("</data>"));
    assert!(xml.contains("num_partition_sectors=\"4\""));
    assert!(xml.contains("SECTOR_SIZE_IN_BYTES=\"4096\""));
    assert!(xml.contains("label=\"boot_a\""));
    assert!(xml.contains("physical_partition_number=\"5\""));
}

#[test]
fn gpt_payload_composition() {
    // One image per LUN; the payload carries one program child per
    // parsed entry, in LUN-then-table order.
    let entries = vec![
        edl_client::gpt::RawGptEntry {
            first_lba: 6,
            last_lba: 9,
            name_units: {
                let mut u = vec![0u8; 72];
                for (i, b) in b"misc".iter().enumerate() {
                    u[2 * i] = *b;
                }
                u
            },
        },
    ];
    let image = edl_client::gpt::serialize_gpt_raw(&entries, 4096);
    let images = vec![(0u8, image), (3u8, vec![0u8; 16])];
    let xml = edl_client::tags::read_gpt_payload(&images);
    assert!(xml.starts_with("<data><program start_sector=\"6\""));
    assert!(xml.ends_with("</data>"));
    assert!(xml.contains("num_partition_sectors=\"4\""));
    assert!(xml.contains("label=\"misc\""));
    // The unparseable second image contributes nothing.
    assert_eq!(xml.matches("<program").count(), 1);
}
