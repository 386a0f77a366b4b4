//! The Firehose engine: session configuration with its buffer invariant,
//! the XML request builders, stream framing, response dispatch, and the
//! chunk arithmetic of bulk transfers.

use vstd::prelude::*;

use vstd::string::{StringExecFns, StrSliceExecFns, StringSliceAdditionalSpecFns};

use crate::strings::{
    parse_dec_str, spec_dec, spec_parse_dec_chars, str_eq, u64_to_dec,
};
use crate::xml::{
    render_doc, render_tag, spec_render_doc, spec_render_tag, spec_pairs_view, XmlAttr,
};

verus! {

/// The two answers a device gives to a request.
#[derive(Clone, Copy, Debug, PartialEq, Eq, Structural)]
pub enum FirehoseStatus {
    Ack,
    Nak,
}

/// The transport a session runs over.
#[derive(Clone, Copy, Debug, PartialEq, Eq, Structural)]
pub enum QdlBackend {
    Serial,
    Usb,
}

/// Supported storage media types.
#[derive(Clone, Copy, Debug, PartialEq, Eq, Structural)]
pub enum FirehoseStorageType {
    Emmc,
    Ufs,
    Nand,
    Nvme,
    Spinor,
}

/// Reboot modes supplied to the power request.
#[derive(Clone, Copy, Debug, PartialEq, Eq, Structural)]
pub enum FirehoseResetMode {
    ResetToEdl,
    Reset,
    Off,
}

/// Errors of the Firehose engine.
#[derive(Clone, Debug, PartialEq, Eq)]
pub enum FirehoseError {
    /// A response that is not the XML dialect the protocol speaks.
    XmlParseFailed,
    /// A response whose root element is not `data`.
    NonDataRoot,
    /// The device refused the request; the device's reason text.
    Nak(String),
    /// The device requires a newer protocol than this engine speaks.
    VersionTooOld,
    /// The device proposed a payload size that breaks the sector-multiple
    /// invariant, or none at all.
    BufferSizeMismatch,
    /// The device asked for a restart.
    RestartRequested,
}

impl QdlBackend {
    /// The backend a name picks, if any.
    pub fn from_str(s: &str) -> (r: Option<QdlBackend>)
        ensures
            r == Some(QdlBackend::Serial) <==> s@ == "serial"@,
            r == Some(QdlBackend::Usb) <==> s@ == "usb"@,
            r is None <==> (s@ != "serial"@ && s@ != "usb"@),
    {
        proof {
            broadcast use vstd::string::group_string_axioms;

            reveal_strlit("serial");
            reveal_strlit("usb");
            assert("serial"@.len() == 6);
            assert("usb"@.len() == 3);
            assert("serial"@ != "usb"@);
        }
        if str_eq(s, "serial") {
            Some(QdlBackend::Serial)
        } else if str_eq(s, "usb") {
            Some(QdlBackend::Usb)
        } else {
            None
        }
    }
}

impl FirehoseStorageType {
    /// The storage type a name picks, if any.
    pub fn from_str(s: &str) -> (r: Option<FirehoseStorageType>)
        ensures
            r == Some(FirehoseStorageType::Emmc) <==> s@ == "emmc"@,
            r == Some(FirehoseStorageType::Ufs) <==> s@ == "ufs"@,
            r == Some(FirehoseStorageType::Nand) <==> s@ == "nand"@,
            r == Some(FirehoseStorageType::Nvme) <==> s@ == "nvme"@,
            r == Some(FirehoseStorageType::Spinor) <==> s@ == "spinor"@,
    {
        proof {
            reveal_strlit("emmc");
            reveal_strlit("ufs");
            reveal_strlit("nand");
            reveal_strlit("nvme");
            reveal_strlit("spinor");
            assert("emmc"@.len() == 4 && "nand"@.len() == 4 && "nvme"@.len() == 4);
            assert("ufs"@.len() == 3 && "spinor"@.len() == 6);
            assert("emmc"@[0] == 'e' && "nand"@[0] == 'n' && "nvme"@[0] == 'n');
            assert("nand"@[1] == 'a' && "nvme"@[1] == 'v');
        }
        if str_eq(s, "emmc") {
            Some(FirehoseStorageType::Emmc)
        } else if str_eq(s, "ufs") {
            Some(FirehoseStorageType::Ufs)
        } else if str_eq(s, "nand") {
            Some(FirehoseStorageType::Nand)
        } else if str_eq(s, "nvme") {
            Some(FirehoseStorageType::Nvme)
        } else if str_eq(s, "spinor") {
            Some(FirehoseStorageType::Spinor)
        } else {
            None
        }
    }

    /// The name of a storage type on the wire.
    pub open spec fn spec_name(self) -> Seq<char> {
        match self {
            FirehoseStorageType::Emmc => "emmc"@,
            FirehoseStorageType::Ufs => "ufs"@,
            FirehoseStorageType::Nand => "nand"@,
            FirehoseStorageType::Nvme => "nvme"@,
            FirehoseStorageType::Spinor => "spinor"@,
        }
    }

    /// Render the storage type's wire name.
    pub fn name(&self) -> (r: String)
        ensures
            r@ == self.spec_name(),
    {
        match self {
            FirehoseStorageType::Emmc => String::from_str("emmc"),
            FirehoseStorageType::Ufs => String::from_str("ufs"),
            FirehoseStorageType::Nand => String::from_str("nand"),
            FirehoseStorageType::Nvme => String::from_str("nvme"),
            FirehoseStorageType::Spinor => String::from_str("spinor"),
        }
    }
}

impl FirehoseResetMode {
    /// The reset mode a name picks, if any.
    pub fn from_str(s: &str) -> (r: Option<FirehoseResetMode>)
        ensures
            r == Some(FirehoseResetMode::ResetToEdl) <==> s@ == "edl"@,
            r == Some(FirehoseResetMode::Reset) <==> s@ == "system"@,
            r == Some(FirehoseResetMode::Off) <==> s@ == "off"@,
    {
        proof {
            reveal_strlit("edl");
            reveal_strlit("system");
            reveal_strlit("off");
            assert("edl"@.len() == 3 && "off"@.len() == 3 && "system"@.len() == 6);
            assert("edl"@[0] == 'e' && "off"@[0] == 'o');
        }
        if str_eq(s, "edl") {
            Some(FirehoseResetMode::ResetToEdl)
        } else if str_eq(s, "system") {
            Some(FirehoseResetMode::Reset)
        } else if str_eq(s, "off") {
            Some(FirehoseResetMode::Off)
        } else {
            None
        }
    }

    /// The value the power request carries for this mode.
    pub open spec fn spec_wire_value(self) -> Seq<char> {
        match self {
            FirehoseResetMode::ResetToEdl => "reset_to_edl"@,
            FirehoseResetMode::Reset => "reset"@,
            FirehoseResetMode::Off => "off"@,
        }
    }

    /// Render the power request value for this mode.
    pub fn wire_value(&self) -> (r: String)
        ensures
            r@ == self.spec_wire_value(),
    {
        match self {
            FirehoseResetMode::ResetToEdl => String::from_str("reset_to_edl"),
            FirehoseResetMode::Reset => String::from_str("reset"),
            FirehoseResetMode::Off => String::from_str("off"),
        }
    }
}

/// Session parameters negotiated once per Firehose session. Buffer sizes
/// are bytes from the host's point of view.
#[derive(Clone, Copy, Debug, PartialEq)]
pub struct FirehoseConfiguration {
    pub send_buffer_size: usize,
    pub recv_buffer_size: usize,
    pub xml_buf_size: usize,
    pub storage_sector_size: usize,
    pub storage_type: FirehoseStorageType,
    pub bypass_storage: bool,
    pub hash_packets: bool,
    pub read_back_verify: bool,
    pub backend: QdlBackend,
    pub skip_usb_zlp: bool,
    pub skip_firehose_log: bool,
    pub verbose_firehose: bool,
}

impl FirehoseConfiguration {
    /// The session invariant: the send buffer is a positive multiple of
    /// the storage sector size.
    pub open spec fn wf(self) -> bool {
        &&& self.storage_sector_size > 0
        &&& self.send_buffer_size > 0
        &&& self.send_buffer_size % self.storage_sector_size == 0
    }
}

impl Default for FirehoseConfiguration {
    /// The starting configuration: a one-MiB send buffer over UFS with
    /// 4096-byte sectors, storage bypassed until a session asks for it.
    fn default() -> (r: Self)
        ensures
            r.send_buffer_size == 1048576,
            r.recv_buffer_size == 4096,
            r.xml_buf_size == 4096,
            r.storage_sector_size == 4096,
            r.storage_type is Ufs,
            r.bypass_storage,
            !r.hash_packets,
            !r.read_back_verify,
            r.backend is Usb,
            !r.skip_usb_zlp,
            r.skip_firehose_log,
            !r.verbose_firehose,
            r.wf(),
    {
        FirehoseConfiguration {
            send_buffer_size: 1048576,
            recv_buffer_size: 4096,
            xml_buf_size: 4096,
            storage_sector_size: 4096,
            storage_type: FirehoseStorageType::Ufs,
            bypass_storage: true,
            hash_packets: false,
            read_back_verify: false,
            backend: QdlBackend::Usb,
            skip_usb_zlp: false,
            skip_firehose_log: true,
            verbose_firehose: false,
        }
    }
}

/// `"1"` for true, `"0"` for false, as Firehose writes booleans.
pub open spec fn spec_bool01(b: bool) -> Seq<char> {
    if b {
        "1"@
    } else {
        "0"@
    }
}

/// Render a boolean the way Firehose writes it.
pub fn bool01(b: bool) -> (r: String)
    ensures
        r@ == spec_bool01(b),
{
    if b {
        String::from_str("1")
    } else {
        String::from_str("0")
    }
}

/// The document that carries one `power` request.
pub open spec fn spec_reset_doc(mode: FirehoseResetMode, delay_in_sec: u32) -> Seq<char> {
    spec_render_doc(
        spec_render_tag(
            "power"@,
            seq![
                ("value"@, mode.spec_wire_value()),
                ("DelayInSeconds"@, spec_dec(delay_in_sec as nat)),
            ],
        ),
    )
}

/// Compose the power request that reboots or powers off the device.
pub fn firehose_reset(mode: &FirehoseResetMode, delay_in_sec: u32) -> (r: String)
    ensures
        r@ == spec_reset_doc(*mode, delay_in_sec),
{
    let mut attrs: Vec<(String, String)> = Vec::new();
    attrs.push((String::from_str("value"), mode.wire_value()));
    attrs.push((String::from_str("DelayInSeconds"), u64_to_dec(delay_in_sec as u64)));
    proof {
        assert(spec_pairs_view(attrs@) =~= seq![
            ("value"@, mode.spec_wire_value()),
            ("DelayInSeconds"@, spec_dec(delay_in_sec as nat)),
        ]);
    }
    let tag = render_tag("power", &attrs);
    render_doc(tag.as_str())
}

/// The document that carries one `nop` request.
pub open spec fn spec_nop_doc() -> Seq<char> {
    spec_render_doc(spec_render_tag("nop"@, seq![("value"@, "ping"@)]))
}

/// Compose the nop request.
pub fn firehose_nop() -> (r: String)
    ensures
        r@ == spec_nop_doc(),
{
    let mut attrs: Vec<(String, String)> = Vec::new();
    attrs.push((String::from_str("value"), String::from_str("ping")));
    proof {
        assert(spec_pairs_view(attrs@) =~= seq![("value"@, "ping"@)]);
    }
    let tag = render_tag("nop", &attrs);
    render_doc(tag.as_str())
}

/// The document that carries one `configure` request for a session.
pub open spec fn spec_configure_doc(cfg: FirehoseConfiguration, skip_storage_init: bool) -> Seq<
    char,
> {
    spec_render_doc(
        spec_render_tag(
            "configure"@,
            seq![
                ("AckRawDataEveryNumPackets"@, "0"@),
                ("SkipWrite"@, spec_bool01(cfg.bypass_storage)),
                ("SkipStorageInit"@, spec_bool01(skip_storage_init)),
                ("MemoryName"@, cfg.storage_type.spec_name()),
                ("AlwaysValidate"@, spec_bool01(cfg.hash_packets)),
                ("Verbose"@, spec_bool01(cfg.verbose_firehose)),
                ("MaxDigestTableSizeInBytes"@, "8192"@),
                ("MaxPayloadSizeToTargetInBytes"@, spec_dec(cfg.send_buffer_size as nat)),
                ("ZLPAwareHost"@, "1"@),
            ],
        ),
    )
}

/// Compose the configure request that announces the host's capabilities.
/// The session invariant must already hold of the configuration sent.
pub fn firehose_configure(cfg: &FirehoseConfiguration, skip_storage_init: bool) -> (r: String)
    requires
        cfg.wf(),
    ensures
        r@ == spec_configure_doc(*cfg, skip_storage_init),
{
    let mut attrs: Vec<(String, String)> = Vec::new();
    attrs.push((String::from_str("AckRawDataEveryNumPackets"), String::from_str("0")));
    attrs.push((String::from_str("SkipWrite"), bool01(cfg.bypass_storage)));
    attrs.push((String::from_str("SkipStorageInit"), bool01(skip_storage_init)));
    attrs.push((String::from_str("MemoryName"), cfg.storage_type.name()));
    attrs.push((String::from_str("AlwaysValidate"), bool01(cfg.hash_packets)));
    attrs.push((String::from_str("Verbose"), bool01(cfg.verbose_firehose)));
    attrs.push((String::from_str("MaxDigestTableSizeInBytes"), String::from_str("8192")));
    attrs.push(
        (
            String::from_str("MaxPayloadSizeToTargetInBytes"),
            u64_to_dec(cfg.send_buffer_size as u64),
        ),
    );
    attrs.push((String::from_str("ZLPAwareHost"), String::from_str("1")));
    proof {
        assert(spec_pairs_view(attrs@) =~= seq![
            ("AckRawDataEveryNumPackets"@, "0"@),
            ("SkipWrite"@, spec_bool01(cfg.bypass_storage)),
            ("SkipStorageInit"@, spec_bool01(skip_storage_init)),
            ("MemoryName"@, cfg.storage_type.spec_name()),
            ("AlwaysValidate"@, spec_bool01(cfg.hash_packets)),
            ("Verbose"@, spec_bool01(cfg.verbose_firehose)),
            ("MaxDigestTableSizeInBytes"@, "8192"@),
            ("MaxPayloadSizeToTargetInBytes"@, spec_dec(cfg.send_buffer_size as nat)),
            ("ZLPAwareHost"@, "1"@),
        ]);
    }
    let tag = render_tag("configure", &attrs);
    render_doc(tag.as_str())
}

/// The document that carries one `benchmark` request.
pub open spec fn spec_benchmark_doc(trials: u32, test_write_perf: bool) -> Seq<char> {
    spec_render_doc(
        spec_render_tag(
            "benchmark"@,
            seq![
                ("trials"@, spec_dec(trials as nat)),
                ("TestWritePerformance"@, spec_bool01(test_write_perf)),
                ("TestReadPerformance"@, spec_bool01(!test_write_perf)),
            ],
        ),
    )
}

/// Compose the benchmark request.
pub fn firehose_benchmark(trials: u32, test_write_perf: bool) -> (r: String)
    ensures
        r@ == spec_benchmark_doc(trials, test_write_perf),
{
    let mut attrs: Vec<(String, String)> = Vec::new();
    attrs.push((String::from_str("trials"), u64_to_dec(trials as u64)));
    attrs.push((String::from_str("TestWritePerformance"), bool01(test_write_perf)));
    attrs.push((String::from_str("TestReadPerformance"), bool01(!test_write_perf)));
    proof {
        assert(spec_pairs_view(attrs@) =~= seq![
            ("trials"@, spec_dec(trials as nat)),
            ("TestWritePerformance"@, spec_bool01(test_write_perf)),
            ("TestReadPerformance"@, spec_bool01(!test_write_perf)),
        ]);
    }
    let tag = render_tag("benchmark", &attrs);
    render_doc(tag.as_str())
}

/// The document that carries one `getstorageinfo` request.
pub open spec fn spec_get_storage_info_doc(phys_part_idx: u8) -> Seq<char> {
    spec_render_doc(
        spec_render_tag(
            "getstorageinfo"@,
            seq![("physical_partition_number"@, spec_dec(phys_part_idx as nat))],
        ),
    )
}

/// Compose the storage-information request for a physical partition.
/// The answer arrives in log entries.
pub fn firehose_get_storage_info(phys_part_idx: u8) -> (r: String)
    ensures
        r@ == spec_get_storage_info_doc(phys_part_idx),
{
    let mut attrs: Vec<(String, String)> = Vec::new();
    attrs.push(
        (String::from_str("physical_partition_number"), u64_to_dec(phys_part_idx as u64)),
    );
    proof {
        assert(spec_pairs_view(attrs@) =~= seq![
            ("physical_partition_number"@, spec_dec(phys_part_idx as nat)),
        ]);
    }
    let tag = render_tag("getstorageinfo", &attrs);
    render_doc(tag.as_str())
}


/// The document that carries one `patch` request. `filename` is `DISK`:
/// the patch applies to the device's storage.
pub open spec fn spec_patch_doc(
    cfg: FirehoseConfiguration,
    byte_off: u64,
    slot: u8,
    phys_part_idx: u8,
    size: u64,
    start_sector: Seq<char>,
    val: Seq<char>,
) -> Seq<char> {
    spec_render_doc(
        spec_render_tag(
            "patch"@,
            seq![
                ("SECTOR_SIZE_IN_BYTES"@, spec_dec(cfg.storage_sector_size as nat)),
                ("byte_offset"@, spec_dec(byte_off as nat)),
                ("filename"@, "DISK"@),
                ("slot"@, spec_dec(slot as nat)),
                ("physical_partition_number"@, spec_dec(phys_part_idx as nat)),
                ("size_in_bytes"@, spec_dec(size as nat)),
                ("start_sector"@, start_sector),
                ("value"@, val),
            ],
        ),
    )
}

/// Compose the patch request that alters a small window of storage.
pub fn firehose_patch(
    cfg: &FirehoseConfiguration,
    byte_off: u64,
    slot: u8,
    phys_part_idx: u8,
    size: u64,
    start_sector: &str,
    val: &str,
) -> (r: String)
    ensures
        r@ == spec_patch_doc(*cfg, byte_off, slot, phys_part_idx, size, start_sector@, val@),
{
    let mut attrs: Vec<(String, String)> = Vec::new();
    attrs.push(
        (String::from_str("SECTOR_SIZE_IN_BYTES"), u64_to_dec(cfg.storage_sector_size as u64)),
    );
    attrs.push((String::from_str("byte_offset"), u64_to_dec(byte_off)));
    attrs.push((String::from_str("filename"), String::from_str("DISK")));
    attrs.push((String::from_str("slot"), u64_to_dec(slot as u64)));
    attrs.push((String::from_str("physical_partition_number"), u64_to_dec(phys_part_idx as u64)));
    attrs.push((String::from_str("size_in_bytes"), u64_to_dec(size)));
    attrs.push((String::from_str("start_sector"), String::from_str(start_sector)));
    attrs.push((String::from_str("value"), String::from_str(val)));
    proof {
        assert(spec_pairs_view(attrs@) =~= seq![
            ("SECTOR_SIZE_IN_BYTES"@, spec_dec(cfg.storage_sector_size as nat)),
            ("byte_offset"@, spec_dec(byte_off as nat)),
            ("filename"@, "DISK"@),
            ("slot"@, spec_dec(slot as nat)),
            ("physical_partition_number"@, spec_dec(phys_part_idx as nat)),
            ("size_in_bytes"@, spec_dec(size as nat)),
            ("start_sector"@, start_sector@),
            ("value"@, val@),
        ]);
    }
    let tag = render_tag("patch", &attrs);
    render_doc(tag.as_str())
}

/// The document that carries one `peek` request.
pub open spec fn spec_peek_doc(addr: u64, byte_count: u64) -> Seq<char> {
    spec_render_doc(
        spec_render_tag(
            "peek"@,
            seq![
                ("address64"@, spec_dec(addr as nat)),
                ("size_in_bytes"@, spec_dec(byte_count as nat)),
            ],
        ),
    )
}

/// Compose the peek request; the bytes read arrive in log entries.
pub fn firehose_peek(addr: u64, byte_count: u64) -> (r: String)
    ensures
        r@ == spec_peek_doc(addr, byte_count),
{
    let mut attrs: Vec<(String, String)> = Vec::new();
    attrs.push((String::from_str("address64"), u64_to_dec(addr)));
    attrs.push((String::from_str("size_in_bytes"), u64_to_dec(byte_count)));
    proof {
        assert(spec_pairs_view(attrs@) =~= seq![
            ("address64"@, spec_dec(addr as nat)),
            ("size_in_bytes"@, spec_dec(byte_count as nat)),
        ]);
    }
    let tag = render_tag("peek", &attrs);
    render_doc(tag.as_str())
}

/// The document that carries one `poke` request.
pub open spec fn spec_poke_doc(addr: u64, byte_count: u8, val: u64) -> Seq<char> {
    spec_render_doc(
        spec_render_tag(
            "poke"@,
            seq![
                ("address64"@, spec_dec(addr as nat)),
                ("size_in_bytes"@, spec_dec(byte_count as nat)),
                ("value"@, spec_dec(val as nat)),
            ],
        ),
    )
}

/// Compose the poke request that writes up to eight bytes of memory.
pub fn firehose_poke(addr: u64, byte_count: u8, val: u64) -> (r: String)
    ensures
        r@ == spec_poke_doc(addr, byte_count, val),
{
    let mut attrs: Vec<(String, String)> = Vec::new();
    attrs.push((String::from_str("address64"), u64_to_dec(addr)));
    attrs.push((String::from_str("size_in_bytes"), u64_to_dec(byte_count as u64)));
    attrs.push((String::from_str("value"), u64_to_dec(val)));
    proof {
        assert(spec_pairs_view(attrs@) =~= seq![
            ("address64"@, spec_dec(addr as nat)),
            ("size_in_bytes"@, spec_dec(byte_count as nat)),
            ("value"@, spec_dec(val as nat)),
        ]);
    }
    let tag = render_tag("poke", &attrs);
    render_doc(tag.as_str())
}

/// The document that carries one `getsha256digest` request.
pub open spec fn spec_checksum_doc(
    cfg: FirehoseConfiguration,
    num_sectors: usize,
    phys_part_idx: u8,
    start_sector: u32,
) -> Seq<char> {
    spec_render_doc(
        spec_render_tag(
            "getsha256digest"@,
            seq![
                ("SECTOR_SIZE_IN_BYTES"@, spec_dec(cfg.storage_sector_size as nat)),
                ("num_partition_sectors"@, spec_dec(num_sectors as nat)),
                ("physical_partition_number"@, spec_dec(phys_part_idx as nat)),
                ("start_sector"@, spec_dec(start_sector as nat)),
            ],
        ),
    )
}

/// Compose the digest request; the digest arrives in log entries.
pub fn firehose_checksum_storage(
    cfg: &FirehoseConfiguration,
    num_sectors: usize,
    phys_part_idx: u8,
    start_sector: u32,
) -> (r: String)
    ensures
        r@ == spec_checksum_doc(*cfg, num_sectors, phys_part_idx, start_sector),
{
    let mut attrs: Vec<(String, String)> = Vec::new();
    attrs.push(
        (String::from_str("SECTOR_SIZE_IN_BYTES"), u64_to_dec(cfg.storage_sector_size as u64)),
    );
    attrs.push((String::from_str("num_partition_sectors"), u64_to_dec(num_sectors as u64)));
    attrs.push((String::from_str("physical_partition_number"), u64_to_dec(phys_part_idx as u64)));
    attrs.push((String::from_str("start_sector"), u64_to_dec(start_sector as u64)));
    proof {
        assert(spec_pairs_view(attrs@) =~= seq![
            ("SECTOR_SIZE_IN_BYTES"@, spec_dec(cfg.storage_sector_size as nat)),
            ("num_partition_sectors"@, spec_dec(num_sectors as nat)),
            ("physical_partition_number"@, spec_dec(phys_part_idx as nat)),
            ("start_sector"@, spec_dec(start_sector as nat)),
        ]);
    }
    let tag = render_tag("getsha256digest", &attrs);
    render_doc(tag.as_str())
}

/// The document that carries one `setbootablestoragedrive` request.
pub open spec fn spec_set_bootable_doc(drive_idx: u8) -> Seq<char> {
    spec_render_doc(
        spec_render_tag(
            "setbootablestoragedrive"@,
            seq![("value"@, spec_dec(drive_idx as nat))],
        ),
    )
}

/// Compose the request that marks a physical partition bootable.
pub fn firehose_set_bootable(drive_idx: u8) -> (r: String)
    ensures
        r@ == spec_set_bootable_doc(drive_idx),
{
    let mut attrs: Vec<(String, String)> = Vec::new();
    attrs.push((String::from_str("value"), u64_to_dec(drive_idx as u64)));
    proof {
        assert(spec_pairs_view(attrs@) =~= seq![("value"@, spec_dec(drive_idx as nat))]);
    }
    let tag = render_tag("setbootablestoragedrive", &attrs);
    render_doc(tag.as_str())
}

/// The sector size each storage type defaults to.
pub fn firehose_get_default_sector_size(t: &str) -> (r: Option<usize>)
    ensures
        t@ == "emmc"@ ==> r == Some(512usize),
        t@ == "nand"@ ==> r == Some(4096usize),
        t@ == "nvme"@ ==> r == Some(512usize),
        t@ == "ufs"@ ==> r == Some(4096usize),
        t@ == "spinor"@ ==> r == Some(4096usize),
        r is Some <==> (t@ == "emmc"@ || t@ == "nand"@ || t@ == "nvme"@ || t@ == "ufs"@ || t@
            == "spinor"@),
{
    match FirehoseStorageType::from_str(t) {
        Some(FirehoseStorageType::Emmc) => Some(512),
        Some(FirehoseStorageType::Nand) => Some(4096),
        Some(FirehoseStorageType::Nvme) => Some(512),
        Some(FirehoseStorageType::Ufs) => Some(4096),
        Some(FirehoseStorageType::Spinor) => Some(4096),
        None => None,
    }
}

/// The document that opens one `program` operation.
pub open spec fn spec_program_doc(
    cfg: FirehoseConfiguration,
    num_sectors: usize,
    slot: u8,
    phys_part_idx: u8,
    start_sector: Seq<char>,
) -> Seq<char> {
    spec_render_doc(
        spec_render_tag(
            "program"@,
            seq![
                ("SECTOR_SIZE_IN_BYTES"@, spec_dec(cfg.storage_sector_size as nat)),
                ("num_partition_sectors"@, spec_dec(num_sectors as nat)),
                ("slot"@, spec_dec(slot as nat)),
                ("physical_partition_number"@, spec_dec(phys_part_idx as nat)),
                ("start_sector"@, start_sector),
                ("read_back_verify"@, spec_bool01(cfg.read_back_verify)),
            ],
        ),
    )
}

/// The sum of a chunk plan's sizes.
pub open spec fn spec_chunk_sum(s: Seq<usize>) -> int
    decreases s.len(),
{
    if s.len() == 0 {
        0
    } else {
        s[0] + spec_chunk_sum(s.drop_first())
    }
}

/// Appending a chunk adds its size to the sum.
proof fn lemma_chunk_sum_push(s: Seq<usize>, c: usize)
    ensures
        spec_chunk_sum(s.push(c)) == spec_chunk_sum(s) + c,
    decreases s.len(),
{
    if s.len() == 0 {
        assert(s.push(c).drop_first() =~= Seq::<usize>::empty());
        assert(s.push(c)[0] == c);
        assert(spec_chunk_sum(s.push(c)) == c + spec_chunk_sum(Seq::<usize>::empty()));
    } else {
        lemma_chunk_sum_push(s.drop_first(), c);
        assert(s.push(c).drop_first() =~= s.drop_first().push(c));
        assert(s.push(c)[0] == s[0]);
    }
}

/// A program operation ready to run: the opening document, the payload
/// chunk sizes in order, and whether a terminating zero-length packet
/// follows the payload.
pub struct ProgramPlan {
    pub doc: String,
    pub chunks: Vec<usize>,
    pub send_zlp: bool,
}

/// Compose a program operation: the opening document and the chunk plan
/// for its payload. The chunks partition exactly
/// `num_sectors * storage_sector_size` bytes; each chunk is a positive
/// multiple of the sector size no larger than the send buffer; a
/// zero-length packet terminates the payload exactly on USB transports
/// that have not opted out.
pub fn firehose_program_storage(
    cfg: &FirehoseConfiguration,
    num_sectors: usize,
    slot: u8,
    phys_part_idx: u8,
    start_sector: &str,
) -> (r: ProgramPlan)
    requires
        cfg.wf(),
        num_sectors * cfg.storage_sector_size <= usize::MAX,
    ensures
        r.doc@ == spec_program_doc(*cfg, num_sectors, slot, phys_part_idx, start_sector@),
        spec_chunk_sum(r.chunks@) == num_sectors * cfg.storage_sector_size,
        forall|i: int|
            0 <= i < r.chunks@.len() ==> 0 < #[trigger] r.chunks@[i] <= cfg.send_buffer_size
                && r.chunks@[i] % cfg.storage_sector_size == 0,
        r.send_zlp == (cfg.backend is Usb && !cfg.skip_usb_zlp),
{
    let mut attrs: Vec<(String, String)> = Vec::new();
    attrs.push(
        (String::from_str("SECTOR_SIZE_IN_BYTES"), u64_to_dec(cfg.storage_sector_size as u64)),
    );
    attrs.push((String::from_str("num_partition_sectors"), u64_to_dec(num_sectors as u64)));
    attrs.push((String::from_str("slot"), u64_to_dec(slot as u64)));
    attrs.push((String::from_str("physical_partition_number"), u64_to_dec(phys_part_idx as u64)));
    attrs.push((String::from_str("start_sector"), String::from_str(start_sector)));
    attrs.push((String::from_str("read_back_verify"), bool01(cfg.read_back_verify)));
    proof {
        assert(spec_pairs_view(attrs@) =~= seq![
            ("SECTOR_SIZE_IN_BYTES"@, spec_dec(cfg.storage_sector_size as nat)),
            ("num_partition_sectors"@, spec_dec(num_sectors as nat)),
            ("slot"@, spec_dec(slot as nat)),
            ("physical_partition_number"@, spec_dec(phys_part_idx as nat)),
            ("start_sector"@, start_sector@),
            ("read_back_verify"@, spec_bool01(cfg.read_back_verify)),
        ]);
    }
    let tag = render_tag("program", &attrs);
    let doc = render_doc(tag.as_str());
    let chunks = plan_chunks(num_sectors, cfg.storage_sector_size, cfg.send_buffer_size);
    let send_zlp = match cfg.backend {
        QdlBackend::Usb => !cfg.skip_usb_zlp,
        QdlBackend::Serial => false,
    };
    ProgramPlan { doc, chunks, send_zlp }
}

/// Cut `num_sectors` sectors into payload chunks: each chunk as many
/// whole sectors as the send buffer holds, the last chunk whatever is
/// left.
fn plan_chunks(num_sectors: usize, sector_size: usize, send_buffer_size: usize) -> (r: Vec<usize>)
    requires
        sector_size > 0,
        send_buffer_size > 0,
        send_buffer_size % sector_size == 0,
        num_sectors * sector_size <= usize::MAX,
    ensures
        spec_chunk_sum(r@) == num_sectors * sector_size,
        forall|i: int|
            0 <= i < r@.len() ==> 0 < #[trigger] r@[i] <= send_buffer_size && r@[i] % sector_size
                == 0,
{
    let buf_sectors: usize = send_buffer_size / sector_size;
    proof {
        vstd::arithmetic::div_mod::lemma_fundamental_div_mod(
            send_buffer_size as int,
            sector_size as int,
        );
        assert(send_buffer_size as int == sector_size as int * (buf_sectors as int));
        assert(buf_sectors >= 1) by (nonlinear_arith)
            requires
                send_buffer_size > 0,
                send_buffer_size as int == sector_size as int * (buf_sectors as int),
                buf_sectors >= 0,
        ;
        assert(buf_sectors * sector_size <= send_buffer_size) by (nonlinear_arith)
            requires
                buf_sectors == send_buffer_size as int / sector_size as int,
                sector_size > 0,
                send_buffer_size as int % sector_size as int == 0,
        ;
    }
    let mut chunks: Vec<usize> = Vec::new();
    let mut sectors_left: usize = num_sectors;
    while sectors_left > 0
        invariant
            sector_size > 0,
            buf_sectors >= 1,
            buf_sectors * sector_size <= send_buffer_size,
            sectors_left <= num_sectors,
            num_sectors * sector_size <= usize::MAX,
            spec_chunk_sum(chunks@) == (num_sectors - sectors_left) * sector_size,
            forall|i: int|
                0 <= i < chunks@.len() ==> 0 < #[trigger] chunks@[i] <= send_buffer_size
                    && chunks@[i] % sector_size == 0,
        decreases sectors_left,
    {
        let chunk_sectors: usize = if sectors_left < buf_sectors {
            sectors_left
        } else {
            buf_sectors
        };
        proof {
            assert(chunk_sectors * sector_size <= buf_sectors * sector_size) by (nonlinear_arith)
                requires
                    chunk_sectors <= buf_sectors,
                    sector_size > 0,
            ;
            assert(chunk_sectors * sector_size <= sectors_left * sector_size) by (nonlinear_arith)
                requires
                    chunk_sectors <= sectors_left,
                    sector_size > 0,
            ;
            assert(sectors_left * sector_size <= num_sectors * sector_size) by (nonlinear_arith)
                requires
                    sectors_left <= num_sectors,
                    sector_size > 0,
            ;
            assert(chunk_sectors * sector_size > 0) by (nonlinear_arith)
                requires
                    chunk_sectors > 0,
                    sector_size > 0,
            ;
            assert((chunk_sectors as int * sector_size as int) % (sector_size as int) == 0)
                by (nonlinear_arith)
                requires
                    sector_size > 0,
            ;
        }
        let chunk_bytes: usize = chunk_sectors * sector_size;
        let ghost before = chunks@;
        chunks.push(chunk_bytes);
        proof {
            lemma_chunk_sum_push(before, chunk_bytes);
            assert((num_sectors - sectors_left) * sector_size + chunk_sectors * sector_size == (
            num_sectors - (sectors_left - chunk_sectors)) * sector_size) by (nonlinear_arith);
        }
        sectors_left = sectors_left - chunk_sectors;
    }
    chunks
}

/// The document that opens one `read` operation, and the total byte count
/// the device will send for it.
pub open spec fn spec_read_doc(
    cfg: FirehoseConfiguration,
    num_sectors: usize,
    slot: u8,
    phys_part_idx: u8,
    start_sector: u32,
) -> Seq<char> {
    spec_render_doc(
        spec_render_tag(
            "read"@,
            seq![
                ("SECTOR_SIZE_IN_BYTES"@, spec_dec(cfg.storage_sector_size as nat)),
                ("num_partition_sectors"@, spec_dec(num_sectors as nat)),
                ("slot"@, spec_dec(slot as nat)),
                ("physical_partition_number"@, spec_dec(phys_part_idx as nat)),
                ("start_sector"@, spec_dec(start_sector as nat)),
            ],
        ),
    )
}

/// Compose a read operation: the opening document and how many payload
/// bytes the device owes, exactly `num_sectors * storage_sector_size`.
pub fn firehose_read_storage(
    cfg: &FirehoseConfiguration,
    num_sectors: usize,
    slot: u8,
    phys_part_idx: u8,
    start_sector: u32,
) -> (r: (String, usize))
    requires
        num_sectors * cfg.storage_sector_size <= usize::MAX,
    ensures
        r.0@ == spec_read_doc(*cfg, num_sectors, slot, phys_part_idx, start_sector),
        r.1 == num_sectors * cfg.storage_sector_size,
{
    let mut attrs: Vec<(String, String)> = Vec::new();
    attrs.push(
        (String::from_str("SECTOR_SIZE_IN_BYTES"), u64_to_dec(cfg.storage_sector_size as u64)),
    );
    attrs.push((String::from_str("num_partition_sectors"), u64_to_dec(num_sectors as u64)));
    attrs.push((String::from_str("slot"), u64_to_dec(slot as u64)));
    attrs.push((String::from_str("physical_partition_number"), u64_to_dec(phys_part_idx as u64)));
    attrs.push((String::from_str("start_sector"), u64_to_dec(start_sector as u64)));
    proof {
        assert(spec_pairs_view(attrs@) =~= seq![
            ("SECTOR_SIZE_IN_BYTES"@, spec_dec(cfg.storage_sector_size as nat)),
            ("num_partition_sectors"@, spec_dec(num_sectors as nat)),
            ("slot"@, spec_dec(slot as nat)),
            ("physical_partition_number"@, spec_dec(phys_part_idx as nat)),
            ("start_sector"@, spec_dec(start_sector as nat)),
        ]);
    }
    let tag = render_tag("read", &attrs);
    let doc = render_doc(tag.as_str());
    (doc, num_sectors * cfg.storage_sector_size)
}

/// How many bytes to ask the transport for next while draining a read
/// operation's payload.
pub fn firehose_recv_chunk(bytes_left: usize, recv_buffer_size: usize) -> (r: usize)
    ensures
        r == if bytes_left < recv_buffer_size {
            bytes_left
        } else {
            recv_buffer_size
        },
{
    if bytes_left < recv_buffer_size {
        bytes_left
    } else {
        recv_buffer_size
    }
}


/// The seven bytes of the closing `data` tag, which delimits incoming
/// documents on a non-packetized stream.
pub open spec fn spec_data_end_marker() -> Seq<u8> {
    seq![60u8, 47u8, 100u8, 97u8, 116u8, 97u8, 62u8]
}

/// Whether the end marker stands at position `i`.
pub open spec fn spec_marker_at(s: Seq<u8>, i: int) -> bool {
    0 <= i && i + 7 <= s.len() && s.subrange(i, i + 7) == spec_data_end_marker()
}

/// The position right after the first end marker at or after `i`, or
/// `-1` when none follows.
pub open spec fn spec_find_marker_end(s: Seq<u8>, i: int) -> int
    decreases s.len() - i,
    when 0 <= i <= s.len()
{
    if i + 7 <= s.len() {
        if spec_marker_at(s, i) {
            i + 7
        } else {
            spec_find_marker_end(s, i + 1)
        }
    } else {
        -1
    }
}

/// Find the end of the first closing `data` tag in `buf`: the index just
/// past it, or `None` when the buffer holds no complete closing tag yet.
pub fn find_data_end(buf: &[u8]) -> (r: Option<usize>)
    ensures
        match r {
            Some(e) => e == spec_find_marker_end(buf@, 0) && 7 <= e <= buf@.len(),
            None => spec_find_marker_end(buf@, 0) == -1,
        },
{
    let mut j: usize = 0;
    while j < buf.len() && buf.len() - j >= 7
        invariant
            j <= buf@.len(),
            spec_find_marker_end(buf@, 0) == spec_find_marker_end(buf@, j as int),
        decreases buf@.len() - j,
    {
        if buf[j] == 60 && buf[j + 1] == 47 && buf[j + 2] == 100 && buf[j + 3] == 97 && buf[j + 4]
            == 116 && buf[j + 5] == 97 && buf[j + 6] == 62 {
            proof {
                assert(buf@.subrange(j as int, j + 7) =~= spec_data_end_marker());
                assert(spec_marker_at(buf@, j as int));
            }
            return Some(j + 7);
        }
        proof {
            assert(buf@.subrange(j as int, j + 7)[0] == buf@[j as int]);
            assert(buf@.subrange(j as int, j + 7)[1] == buf@[j + 1]);
            assert(buf@.subrange(j as int, j + 7)[2] == buf@[j + 2]);
            assert(buf@.subrange(j as int, j + 7)[3] == buf@[j + 3]);
            assert(buf@.subrange(j as int, j + 7)[4] == buf@[j + 4]);
            assert(buf@.subrange(j as int, j + 7)[5] == buf@[j + 5]);
            assert(buf@.subrange(j as int, j + 7)[6] == buf@[j + 6]);
            assert(!spec_marker_at(buf@, j as int));
        }
        j = j + 1;
    }
    None
}

/// One step of document framing: take what the transport made available,
/// and either cut a complete document out of the pending bytes or absorb
/// everything and wait for more. Returns how many of the available bytes
/// were consumed toward the document, and the document when one is
/// complete. The pending buffer must not already hold a complete
/// document: the previous step would have cut it.
pub fn firehose_read_step(pending: &mut Vec<u8>, available: &[u8]) -> (r: (usize, Option<Vec<u8>>))
    requires
        spec_find_marker_end(old(pending)@, 0) == -1,
    ensures
        ({
            let merged = old(pending)@ + available@;
            let end = spec_find_marker_end(merged, 0);
            if end >= 0 {
                &&& r.1 matches Some(doc) && doc@ == merged.take(end)
                &&& r.0 == end - old(pending)@.len()
                &&& final(pending)@.len() == 0
            } else {
                &&& r.1 is None
                &&& r.0 == available@.len()
                &&& final(pending)@ == merged
            }
        }),
{
    let old_len = pending.len();
    let mut k: usize = 0;
    while k < available.len()
        invariant
            k <= available@.len(),
            pending@ == old(pending)@ + available@.take(k as int),
        decreases available@.len() - k,
    {
        pending.push(available[k]);
        k = k + 1;
        proof {
            assert(pending@ =~= old(pending)@ + available@.take(k as int));
        }
    }
    proof {
        assert(available@.take(available@.len() as int) =~= available@);
    }
    match find_data_end(pending.as_slice()) {
        Some(end) => {
            proof {
                lemma_marker_end_past_prefix(old(pending)@, available@, end as int);
            }
            let mut doc: Vec<u8> = Vec::new();
            let mut m: usize = 0;
            while m < end
                invariant
                    m <= end <= pending@.len(),
                    doc@ == pending@.take(m as int),
                decreases end - m,
            {
                doc.push(pending[m]);
                m = m + 1;
                proof {
                    assert(doc@ =~= pending@.take(m as int));
                }
            }
            let consumed = end - old_len;
            pending.clear();
            (consumed, Some(doc))
        },
        None => (available.len(), None),
    }
}

/// When a prefix of the stream holds no end marker, a marker found in the
/// whole stream ends past that prefix.
proof fn lemma_marker_end_past_prefix(p: Seq<u8>, a: Seq<u8>, end: int)
    requires
        spec_find_marker_end(p, 0) == -1,
        spec_find_marker_end(p + a, 0) == end,
        end >= 0,
    ensures
        end > p.len(),
{
    let merged = p + a;
    lemma_find_marker_end_is_marker(merged, 0);
    let start = end - 7;
    if end <= p.len() {
        assert(spec_marker_at(merged, start));
        assert(p.subrange(start, start + 7) =~= merged.subrange(start, start + 7));
        assert(spec_marker_at(p, start));
        lemma_marker_implies_found(p, 0, start);
    }
}

/// A found marker end has the marker right before it.
proof fn lemma_find_marker_end_is_marker(s: Seq<u8>, i: int)
    requires
        0 <= i <= s.len(),
        spec_find_marker_end(s, i) >= 0,
    ensures
        spec_marker_at(s, spec_find_marker_end(s, i) - 7),
    decreases s.len() - i,
{
    if i + 7 <= s.len() && !spec_marker_at(s, i) {
        lemma_find_marker_end_is_marker(s, i + 1);
    }
}

/// Where a marker stands, the search cannot come back empty.
proof fn lemma_marker_implies_found(s: Seq<u8>, i: int, at: int)
    requires
        0 <= i <= at,
        spec_marker_at(s, at),
    ensures
        spec_find_marker_end(s, i) >= 0,
    decreases at - i,
{
    if i < at && !spec_marker_at(s, i) {
        lemma_marker_implies_found(s, i + 1, at);
    }
}

/// The bytes put on the wire for one outgoing document: the document
/// itself, with one line feed appended exactly when its length is a
/// positive multiple of 512, which the protocol forbids.
pub fn firehose_write(doc: &str) -> (r: Vec<u8>)
    ensures
        (doc.spec_bytes().len() > 0 && doc.spec_bytes().len() % 512 == 0) ==> r@
            == doc.spec_bytes() + seq![10u8],
        !(doc.spec_bytes().len() > 0 && doc.spec_bytes().len() % 512 == 0) ==> r@
            == doc.spec_bytes(),
{
    let mut out = doc.as_bytes_vec();
    if out.len() > 0 && out.len() % 512 == 0 {
        out.push(10);
    }
    out
}

/// Look an attribute up by name; the first binding wins.
pub open spec fn spec_attr_lookup(attrs: Seq<(Seq<char>, Seq<char>)>, name: Seq<char>) -> Option<
    Seq<char>,
>
    decreases attrs.len(),
{
    if attrs.len() == 0 {
        None
    } else if attrs[0].0 == name {
        Some(attrs[0].1)
    } else {
        spec_attr_lookup(attrs.drop_first(), name)
    }
}

/// Look an attribute up by name in a parsed attribute list.
pub fn attr_lookup(attrs: &Vec<XmlAttr>, name: &str) -> (r: Option<String>)
    ensures
        match spec_attr_lookup(crate::xml::spec_attrs_view(attrs@), name@) {
            Some(v) => r matches Some(x) && x@ == v,
            None => r is None,
        },
{
    let ghost view = crate::xml::spec_attrs_view(attrs@);
    proof {
        assert(view.skip(0) =~= view);
    }
    let mut i: usize = 0;
    while i < attrs.len()
        invariant
            view == crate::xml::spec_attrs_view(attrs@),
            i <= attrs@.len(),
            spec_attr_lookup(view, name@) == spec_attr_lookup(view.skip(i as int), name@),
        decreases attrs@.len() - i,
    {
        if str_eq(attrs[i].name.as_str(), name) {
            proof {
                assert(view.skip(i as int)[0] == view[i as int]);
            }
            return Some(attrs[i].value.clone());
        }
        proof {
            assert(view.skip(i as int)[0] == view[i as int]);
            assert(view.skip(i as int).drop_first() =~= view.skip(i + 1));
        }
        i = i + 1;
    }
    proof {
        assert(view.skip(attrs@.len() as int) =~= Seq::<(Seq<char>, Seq<char>)>::empty());
    }
    None
}

/// What the read loop does with one complete parsed document.
pub enum FirehoseReadAction {
    /// The document carried a log entry; its text, when it has one.
    EmitLog(Option<String>),
    /// The device asked the host to retry the read.
    Retry,
    /// The device asked for a session restart: reset to EDL and fail.
    Restart,
    /// The document carried no child element; keep reading.
    Empty,
    /// The root element is not `data`.
    BadRoot,
    /// An ordinary response: hand the first child's attributes to the
    /// operation's parser.
    Dispatch,
}

/// Classify one parsed document the way the read loop treats it: reject
/// roots other than `data`, surface log entries, honor retry and restart
/// hints, and hand everything else to the operation's parser.
pub fn firehose_handle_document(doc: &crate::xml::XmlDoc) -> (r: FirehoseReadAction)
    ensures
        doc.root.name@ != "data"@ ==> r is BadRoot,
        doc.root.name@ == "data"@ && doc.children@.len() == 0 ==> r is Empty,
        doc.root.name@ == "data"@ && doc.children@.len() > 0 ==> {
            let child = doc.children@[0];
            let attrs = crate::xml::spec_attrs_view(child.attrs@);
            if child.name@ == "log"@ {
                r matches FirehoseReadAction::EmitLog(v) && (match spec_attr_lookup(
                    attrs,
                    "value"@,
                ) {
                    Some(t) => v matches Some(x) && x@ == t,
                    None => v is None,
                })
            } else if spec_attr_lookup(attrs, "AttemptRetry"@) is Some {
                r is Retry
            } else if spec_attr_lookup(attrs, "AttemptRestart"@) is Some {
                r is Restart
            } else {
                r is Dispatch
            }
        },
{
    if !str_eq(doc.root.name.as_str(), "data") {
        return FirehoseReadAction::BadRoot;
    }
    if doc.children.len() == 0 {
        return FirehoseReadAction::Empty;
    }
    let child = &doc.children[0];
    if str_eq(child.name.as_str(), "log") {
        return FirehoseReadAction::EmitLog(attr_lookup(&child.attrs, "value"));
    }
    if attr_lookup(&child.attrs, "AttemptRetry").is_some() {
        return FirehoseReadAction::Retry;
    }
    if attr_lookup(&child.attrs, "AttemptRestart").is_some() {
        return FirehoseReadAction::Restart;
    }
    FirehoseReadAction::Dispatch
}

/// Read the device's answer out of a response's attributes: `ACK`,
/// `NAK`, or a malformed document.
pub fn firehose_parser_ack_nak(attrs: &Vec<XmlAttr>) -> (r: Result<FirehoseStatus, FirehoseError>)
    ensures
        ({
            let v = spec_attr_lookup(crate::xml::spec_attrs_view(attrs@), "value"@);
            if v == Some("ACK"@) {
                r == Ok::<FirehoseStatus, FirehoseError>(FirehoseStatus::Ack)
            } else if v == Some("NAK"@) {
                r == Ok::<FirehoseStatus, FirehoseError>(FirehoseStatus::Nak)
            } else {
                r == Err::<FirehoseStatus, FirehoseError>(FirehoseError::XmlParseFailed)
            }
        }),
{
    proof {
        reveal_strlit("ACK");
        reveal_strlit("NAK");
        assert("ACK"@.len() == 3 && "NAK"@.len() == 3);
        assert("ACK"@[0] == 'A' && "NAK"@[0] == 'N');
    }
    match attr_lookup(attrs, "value") {
        Some(v) => {
            if str_eq(v.as_str(), "ACK") {
                Ok(FirehoseStatus::Ack)
            } else if str_eq(v.as_str(), "NAK") {
                Ok(FirehoseStatus::Nak)
            } else {
                Err(FirehoseError::XmlParseFailed)
            }
        },
        None => Err(FirehoseError::XmlParseFailed),
    }
}

/// What to do after a request that expects a plain acknowledgment: on
/// `ACK` proceed; on `NAK` send a reset to EDL and report what could not
/// be done.
pub enum FirehoseAckOutcome {
    /// The device acknowledged; the operation is done.
    Proceed,
    /// The device refused: write the reset document, then fail with the
    /// device's answer.
    ResetAndFail(String),
}

/// Decide the follow-up to an acknowledgment answer. On `NAK` the
/// follow-up carries the reset-to-EDL document to send before failing.
pub fn firehose_write_getack(status: FirehoseStatus) -> (r: FirehoseAckOutcome)
    ensures
        status is Ack ==> r is Proceed,
        status is Nak ==> (r matches FirehoseAckOutcome::ResetAndFail(d) && d@ == spec_reset_doc(
            FirehoseResetMode::ResetToEdl,
            0,
        )),
{
    match status {
        FirehoseStatus::Ack => FirehoseAckOutcome::Proceed,
        FirehoseStatus::Nak => FirehoseAckOutcome::ResetAndFail(
            firehose_reset(&FirehoseResetMode::ResetToEdl, 0),
        ),
    }
}

/// The outcome of a successful configure exchange: the configuration the
/// session continues with, and whether the host re-sends `configure`
/// because the device supports a larger payload than negotiated.
#[derive(Clone, Copy, Debug, PartialEq)]
pub struct ConfigureResult {
    pub config: FirehoseConfiguration,
    pub resend: bool,
}

/// What a decimal attribute holds, by name.
pub open spec fn spec_dec_attr(attrs: Seq<(Seq<char>, Seq<char>)>, name: Seq<char>) -> Option<
    u64,
> {
    match spec_attr_lookup(attrs, name) {
        Some(v) => spec_parse_dec_chars(v),
        None => None,
    }
}

/// The configure-response decision. The device may refuse with a smaller
/// payload size, which the host adopts; a device that supports a larger
/// payload than negotiated has the host re-send `configure` with it.
/// Whatever the device proposes must keep the session invariant, else the
/// exchange fails.
pub open spec fn spec_configure_response(
    cfg: FirehoseConfiguration,
    attrs: Seq<(Seq<char>, Seq<char>)>,
) -> Result<ConfigureResult, FirehoseError> {
    let naked = spec_attr_lookup(attrs, "value"@) == Some("NAK"@);
    if naked && spec_dec_attr(attrs, "MaxPayloadSizeToTargetInBytes"@) is None {
        Err(FirehoseError::BufferSizeMismatch)
    } else {
        match spec_dec_attr(attrs, "MaxPayloadSizeToTargetInBytesSupported"@) {
            None => Err(FirehoseError::XmlParseFailed),
            Some(supported) => match spec_dec_attr(attrs, "MinVersionSupported"@) {
                None => Err(FirehoseError::XmlParseFailed),
                Some(minv) => if minv < 1 {
                    Err(FirehoseError::VersionTooOld)
                } else if spec_attr_lookup(attrs, "Version"@) is None {
                    Err(FirehoseError::XmlParseFailed)
                } else {
                    match spec_dec_attr(attrs, "MaxXMLSizeInBytes"@) {
                        None => Err(FirehoseError::XmlParseFailed),
                        Some(xmlb) => match spec_dec_attr(
                            attrs,
                            "MaxPayloadSizeToTargetInBytes"@,
                        ) {
                            None => Err(FirehoseError::XmlParseFailed),
                            Some(send) => {
                                let send2 = if send < supported {
                                    supported
                                } else {
                                    send
                                };
                                if xmlb > usize::MAX as u64 || send2 > usize::MAX as u64 {
                                    Err(FirehoseError::BufferSizeMismatch)
                                } else if !(send2 > 0 && send2 as usize % cfg.storage_sector_size
                                    == 0 && cfg.storage_sector_size > 0) {
                                    Err(FirehoseError::BufferSizeMismatch)
                                } else {
                                    Ok(
                                        ConfigureResult {
                                            config: FirehoseConfiguration {
                                                send_buffer_size: send2 as usize,
                                                xml_buf_size: xmlb as usize,
                                                ..cfg
                                            },
                                            resend: send < supported,
                                        },
                                    )
                                }
                            },
                        },
                    }
                },
            },
        }
    }
}

/// Parse the configure response and decide how the session goes on. An
/// accepted outcome always satisfies the session invariant.
pub fn firehose_parser_configure_response(
    cfg: &FirehoseConfiguration,
    attrs: &Vec<XmlAttr>,
) -> (r: Result<ConfigureResult, FirehoseError>)
    ensures
        r == spec_configure_response(*cfg, crate::xml::spec_attrs_view(attrs@)),
        r matches Ok(c) ==> c.config.wf(),
{
    let ghost view = crate::xml::spec_attrs_view(attrs@);
    let naked = match attr_lookup(attrs, "value") {
        Some(v) => {
            proof {
                reveal_strlit("NAK");
            }
            str_eq(v.as_str(), "NAK")
        },
        None => false,
    };
    let mps = dec_attr(attrs, "MaxPayloadSizeToTargetInBytes");
    if naked && mps.is_none() {
        return Err(FirehoseError::BufferSizeMismatch);
    }
    let supported = match dec_attr(attrs, "MaxPayloadSizeToTargetInBytesSupported") {
        Some(v) => v,
        None => {
            return Err(FirehoseError::XmlParseFailed);
        },
    };
    let minv = match dec_attr(attrs, "MinVersionSupported") {
        Some(v) => v,
        None => {
            return Err(FirehoseError::XmlParseFailed);
        },
    };
    if minv < 1 {
        return Err(FirehoseError::VersionTooOld);
    }
    if attr_lookup(attrs, "Version").is_none() {
        return Err(FirehoseError::XmlParseFailed);
    }
    let xmlb = match dec_attr(attrs, "MaxXMLSizeInBytes") {
        Some(v) => v,
        None => {
            return Err(FirehoseError::XmlParseFailed);
        },
    };
    let send = match mps {
        Some(v) => v,
        None => {
            return Err(FirehoseError::XmlParseFailed);
        },
    };
    let send2: u64 = if send < supported {
        supported
    } else {
        send
    };
    if xmlb > usize::MAX as u64 || send2 > usize::MAX as u64 {
        return Err(FirehoseError::BufferSizeMismatch);
    }
    if !(send2 > 0 && cfg.storage_sector_size > 0 && (send2 as usize) % cfg.storage_sector_size
        == 0) {
        return Err(FirehoseError::BufferSizeMismatch);
    }
    let mut config = *cfg;
    config.send_buffer_size = send2 as usize;
    config.xml_buf_size = xmlb as usize;
    Ok(ConfigureResult { config, resend: send < supported })
}

/// The decimal value of an attribute, by name.
fn dec_attr(attrs: &Vec<XmlAttr>, name: &str) -> (r: Option<u64>)
    ensures
        r == spec_dec_attr(crate::xml::spec_attrs_view(attrs@), name@),
{
    match attr_lookup(attrs, name) {
        Some(v) => parse_dec_str(v.as_str()),
        None => None,
    }
}

} // verus!
