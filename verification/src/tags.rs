//! The Firehose tag records: `program`, `read` and `erase` entries as
//! in-memory values, their serialization in a stable attribute order, and
//! the parsers that read them back out of plan documents.

use vstd::prelude::*;

use vstd::string::{StringExecFns, StringSliceAdditionalSpecFns};

use crate::firehose::{attr_lookup, spec_attr_lookup, spec_bool01, bool01, spec_dec_attr};
use crate::strings::{
    parse_dec_str, spec_dec, spec_digit, spec_parse_dec_chars, str_eq, string_push, u64_to_dec,
    spec_hex_digit_upper,
};
use crate::xml::{
    parse_document, render_doc, render_tag, spec_attrs_view, spec_pairs_view, spec_render_doc,
    spec_render_tag, XmlAttr,
};

verus! {

/// A `program` entry: one partition image write. `size_in_kb_tenths`
/// carries the size attribute in tenths of a KB, since it is written
/// with exactly one fractional digit.
#[derive(Clone, Debug, PartialEq)]
pub struct Program {
    pub start_sector: String,
    pub size_in_kb_tenths: u64,
    pub physical_partition_number: u8,
    pub part_of_single_image: bool,
    pub file_sector_offset: u64,
    pub num_partition_sectors: u64,
    pub readback_verify: bool,
    pub filename: String,
    pub sparse: bool,
    pub start_byte_hex: String,
    pub sector_size_in_bytes: u64,
    pub label: String,
}

/// An `erase` entry.
#[derive(Clone, Debug, PartialEq)]
pub struct EraseTag {
    pub sector_size_in_bytes: u64,
    pub label: String,
    pub physical_partition_number: u8,
    pub start_sector: u64,
    pub num_partition_sectors: u64,
}

/// A `read` entry.
#[derive(Clone, Debug, PartialEq)]
pub struct ReadTag {
    pub filename: String,
    pub physical_partition_number: u8,
    pub label: String,
    pub start_sector: u64,
    pub num_partition_sectors: u64,
    pub sector_size_in_bytes: u64,
    pub sparse: bool,
}

/// The root of a plan document: its entries by kind.
pub struct DataRoot {
    pub programs: Vec<Program>,
    pub read_tags: Vec<ReadTag>,
    pub erase_tags: Vec<EraseTag>,
}

/// The size attribute's rendering: tenths of a KB with exactly one
/// fractional digit.
pub open spec fn spec_kb_render(tenths: nat) -> Seq<char> {
    spec_dec(tenths / 10) + seq!['.', spec_digit(tenths % 10)]
}

/// Render tenths of a KB with one fractional digit.
pub fn kb_render(tenths: u64) -> (r: String)
    ensures
        r@ == spec_kb_render(tenths as nat),
{
    let mut out = u64_to_dec(tenths / 10);
    string_push(&mut out, '.');
    string_push(&mut out, ((tenths % 10) as u8 + 48) as char);
    proof {
        assert(out@ =~= spec_kb_render(tenths as nat));
    }
    out
}

/// The upper-case hex rendering of `n`, no leading zeros.
pub open spec fn spec_hex_upper(n: nat) -> Seq<char>
    decreases n,
{
    if n < 16 {
        seq![spec_hex_digit_upper(n)]
    } else {
        spec_hex_upper(n / 16) + seq![spec_hex_digit_upper(n % 16)]
    }
}

/// Render `n` in upper-case hex.
pub fn u64_to_hex_upper(n: u64) -> (r: String)
    ensures
        r@ == spec_hex_upper(n as nat),
{
    let mut digits: Vec<char> = Vec::new();
    let mut m: u64 = n;
    while m >= 16
        invariant
            spec_hex_upper(n as nat) == spec_hex_upper(m as nat) + digits@.reverse(),
        decreases m,
    {
        let ghost before = digits@;
        let d: u8 = (m % 16) as u8;
        digits.push(hex_upper_char(d));
        proof {
            assert(digits@.reverse() =~= seq![spec_hex_digit_upper((m as nat) % 16)]
                + before.reverse());
            assert(spec_hex_upper(m as nat) + before.reverse() =~= spec_hex_upper(
                (m as nat) / 16,
            ) + digits@.reverse());
        }
        m = m / 16;
    }
    let ghost before = digits@;
    digits.push(hex_upper_char(m as u8));
    proof {
        assert(digits@.reverse() =~= seq![spec_hex_digit_upper(m as nat)] + before.reverse());
        assert(spec_hex_upper(n as nat) =~= digits@.reverse());
    }
    let mut out = String::new();
    let mut i: usize = digits.len();
    while i > 0
        invariant
            i <= digits@.len(),
            out@ == digits@.reverse().take(digits@.len() - i),
        decreases i,
    {
        i = i - 1;
        string_push(&mut out, digits[i]);
        proof {
            assert(digits@.reverse()[digits@.len() - i - 1] == digits@[i as int]);
            assert(out@ =~= digits@.reverse().take(digits@.len() - i));
        }
    }
    proof {
        assert(digits@.reverse().take(digits@.len() as int) =~= digits@.reverse());
    }
    out
}

/// One upper-case hex digit.
fn hex_upper_char(d: u8) -> (c: char)
    requires
        d < 16,
    ensures
        c == spec_hex_digit_upper(d as nat),
{
    if d < 10 {
        (d + 48) as char
    } else {
        (d + 55) as char
    }
}

/// The attribute list of a `program` tag, in serialization order.
pub open spec fn spec_program_attrs(p: Program) -> Seq<(Seq<char>, Seq<char>)> {
    seq![
        ("start_sector"@, p.start_sector@),
        ("size_in_KB"@, spec_kb_render(p.size_in_kb_tenths as nat)),
        ("physical_partition_number"@, spec_dec(p.physical_partition_number as nat)),
        ("partofsingleimage"@, spec_bool01(p.part_of_single_image)),
        ("file_sector_offset"@, spec_dec(p.file_sector_offset as nat)),
        ("num_partition_sectors"@, spec_dec(p.num_partition_sectors as nat)),
        ("readbackverify"@, spec_bool01(p.readback_verify)),
        ("filename"@, p.filename@),
        ("sparse"@, spec_bool01(p.sparse)),
        ("start_byte_hex"@, p.start_byte_hex@),
        ("SECTOR_SIZE_IN_BYTES"@, spec_dec(p.sector_size_in_bytes as nat)),
        ("label"@, p.label@),
    ]
}

/// The attribute list of a `read` tag, in serialization order.
pub open spec fn spec_read_attrs(t: ReadTag) -> Seq<(Seq<char>, Seq<char>)> {
    seq![
        ("filename"@, t.filename@),
        ("physical_partition_number"@, spec_dec(t.physical_partition_number as nat)),
        ("label"@, t.label@),
        ("start_sector"@, spec_dec(t.start_sector as nat)),
        ("num_partition_sectors"@, spec_dec(t.num_partition_sectors as nat)),
        ("SECTOR_SIZE_IN_BYTES"@, spec_dec(t.sector_size_in_bytes as nat)),
        ("sparse"@, spec_bool01(t.sparse)),
    ]
}

/// The attribute list of an `erase` tag, in serialization order.
pub open spec fn spec_erase_attrs(t: EraseTag) -> Seq<(Seq<char>, Seq<char>)> {
    seq![
        ("SECTOR_SIZE_IN_BYTES"@, spec_dec(t.sector_size_in_bytes as nat)),
        ("label"@, t.label@),
        ("physical_partition_number"@, spec_dec(t.physical_partition_number as nat)),
        ("start_sector"@, spec_dec(t.start_sector as nat)),
        ("num_partition_sectors"@, spec_dec(t.num_partition_sectors as nat)),
    ]
}

impl Program {
    /// Render this entry as a self-closed `program` tag.
    pub fn to_xml(&self) -> (r: String)
        ensures
            r@ == spec_render_tag("program"@, spec_program_attrs(*self)),
    {
        let mut attrs: Vec<(String, String)> = Vec::new();
        attrs.push((String::from_str("start_sector"), self.start_sector.clone()));
        attrs.push((String::from_str("size_in_KB"), kb_render(self.size_in_kb_tenths)));
        attrs.push(
            (
                String::from_str("physical_partition_number"),
                u64_to_dec(self.physical_partition_number as u64),
            ),
        );
        attrs.push((String::from_str("partofsingleimage"), bool01(self.part_of_single_image)));
        attrs.push((String::from_str("file_sector_offset"), u64_to_dec(self.file_sector_offset)));
        attrs.push(
            (String::from_str("num_partition_sectors"), u64_to_dec(self.num_partition_sectors)),
        );
        attrs.push((String::from_str("readbackverify"), bool01(self.readback_verify)));
        attrs.push((String::from_str("filename"), self.filename.clone()));
        attrs.push((String::from_str("sparse"), bool01(self.sparse)));
        attrs.push((String::from_str("start_byte_hex"), self.start_byte_hex.clone()));
        attrs.push(
            (String::from_str("SECTOR_SIZE_IN_BYTES"), u64_to_dec(self.sector_size_in_bytes)),
        );
        attrs.push((String::from_str("label"), self.label.clone()));
        proof {
            assert(spec_pairs_view(attrs@) =~= spec_program_attrs(*self));
        }
        render_tag("program", &attrs)
    }
}

impl ReadTag {
    /// Render this entry as a self-closed `read` tag.
    pub fn to_xml(&self) -> (r: String)
        ensures
            r@ == spec_render_tag("read"@, spec_read_attrs(*self)),
    {
        let mut attrs: Vec<(String, String)> = Vec::new();
        attrs.push((String::from_str("filename"), self.filename.clone()));
        attrs.push(
            (
                String::from_str("physical_partition_number"),
                u64_to_dec(self.physical_partition_number as u64),
            ),
        );
        attrs.push((String::from_str("label"), self.label.clone()));
        attrs.push((String::from_str("start_sector"), u64_to_dec(self.start_sector)));
        attrs.push(
            (String::from_str("num_partition_sectors"), u64_to_dec(self.num_partition_sectors)),
        );
        attrs.push(
            (String::from_str("SECTOR_SIZE_IN_BYTES"), u64_to_dec(self.sector_size_in_bytes)),
        );
        attrs.push((String::from_str("sparse"), bool01(self.sparse)));
        proof {
            assert(spec_pairs_view(attrs@) =~= spec_read_attrs(*self));
        }
        render_tag("read", &attrs)
    }
}

impl EraseTag {
    /// Render this entry as a self-closed `erase` tag.
    pub fn to_xml(&self) -> (r: String)
        ensures
            r@ == spec_render_tag("erase"@, spec_erase_attrs(*self)),
    {
        let mut attrs: Vec<(String, String)> = Vec::new();
        attrs.push(
            (String::from_str("SECTOR_SIZE_IN_BYTES"), u64_to_dec(self.sector_size_in_bytes)),
        );
        attrs.push((String::from_str("label"), self.label.clone()));
        attrs.push(
            (
                String::from_str("physical_partition_number"),
                u64_to_dec(self.physical_partition_number as u64),
            ),
        );
        attrs.push((String::from_str("start_sector"), u64_to_dec(self.start_sector)));
        attrs.push(
            (String::from_str("num_partition_sectors"), u64_to_dec(self.num_partition_sectors)),
        );
        proof {
            assert(spec_pairs_view(attrs@) =~= spec_erase_attrs(*self));
        }
        render_tag("erase", &attrs)
    }
}

/// The document framing a single rendered tag, as plan files carry it.
pub fn to_xml_doc(tag_xml: &str) -> (r: String)
    ensures
        r@ == spec_render_doc(tag_xml@),
{
    render_doc(tag_xml)
}

/// Compose a `program` entry for a partition found in a GPT: its image is
/// named after its label, sectors are 4096 bytes, and the starting byte
/// is the sector times the sector size in upper-case hex.
pub fn create_program_dynamic(
    lun: u8,
    start_sector: u64,
    num_partition_sectors: u64,
    label: &str,
) -> (r: Program)
    requires
        num_partition_sectors * 40 <= u64::MAX,
        start_sector * 4096 <= u64::MAX,
    ensures
        r.start_sector@ == spec_dec(start_sector as nat),
        r.size_in_kb_tenths == num_partition_sectors * 40,
        r.physical_partition_number == lun,
        !r.part_of_single_image,
        r.file_sector_offset == 0,
        r.num_partition_sectors == num_partition_sectors,
        !r.readback_verify,
        r.filename@ == label@ + ".img"@,
        !r.sparse,
        r.start_byte_hex@ == spec_hex_upper((start_sector * 4096) as nat),
        r.sector_size_in_bytes == 4096,
        r.label@ == label@,
{
    proof {
        assert(num_partition_sectors * 40 >= 0) by (nonlinear_arith)
            requires
                num_partition_sectors >= 0,
        ;
        assert(start_sector * 4096 >= 0) by (nonlinear_arith)
            requires
                start_sector >= 0,
        ;
    }
    let mut filename = String::from_str(label);
    filename.append(".img");
    Program {
        start_sector: u64_to_dec(start_sector),
        size_in_kb_tenths: num_partition_sectors * 40,
        physical_partition_number: lun,
        part_of_single_image: false,
        file_sector_offset: 0,
        num_partition_sectors,
        readback_verify: false,
        filename,
        sparse: false,
        start_byte_hex: u64_to_hex_upper(start_sector * 4096),
        sector_size_in_bytes: 4096,
        label: String::from_str(label),
    }
}

/// Compose a `read` entry for one partition window at 4096-byte sectors.
pub fn create_read_tag_dynamic(
    filename: &str,
    lun: u8,
    start_sector: u64,
    num_partition_sectors: u64,
    label: &str,
) -> (r: ReadTag)
    ensures
        r.filename@ == filename@,
        r.physical_partition_number == lun,
        r.label@ == label@,
        r.start_sector == start_sector,
        r.num_partition_sectors == num_partition_sectors,
        r.sector_size_in_bytes == 4096,
        !r.sparse,
{
    ReadTag {
        filename: String::from_str(filename),
        physical_partition_number: lun,
        label: String::from_str(label),
        start_sector,
        num_partition_sectors,
        sector_size_in_bytes: 4096,
        sparse: false,
    }
}


/// What a boolean attribute means: `1` or `true`, `0` or `false`.
pub open spec fn spec_parse_bool_chars(v: Seq<char>) -> Option<bool> {
    if v == "1"@ || v == "true"@ {
        Some(true)
    } else if v == "0"@ || v == "false"@ {
        Some(false)
    } else {
        None
    }
}

/// Parse a boolean attribute value.
pub fn parse_bool_str(v: &str) -> (r: Option<bool>)
    ensures
        r == spec_parse_bool_chars(v@),
{
    proof {
        reveal_strlit("1");
        reveal_strlit("0");
        reveal_strlit("true");
        reveal_strlit("false");
        assert("1"@.len() == 1 && "0"@.len() == 1 && "true"@.len() == 4 && "false"@.len() == 5);
        assert("1"@[0] == '1' && "0"@[0] == '0');
    }
    if str_eq(v, "1") || str_eq(v, "true") {
        Some(true)
    } else if str_eq(v, "0") || str_eq(v, "false") {
        Some(false)
    } else {
        None
    }
}

/// What the size attribute means, in tenths of a KB: a decimal whole
/// part, optionally followed by a dot and exactly one fractional digit.
pub open spec fn spec_parse_kb_chars(v: Seq<char>) -> Option<u64> {
    let dot = spec_find_dot(v, 0);
    if dot < 0 {
        match spec_parse_dec_chars(v) {
            Some(n) => if n <= u64::MAX / 10 {
                Some((n * 10) as u64)
            } else {
                None
            },
            None => None,
        }
    } else {
        let whole = v.take(dot);
        let frac = v.skip(dot + 1);
        if frac.len() == 1 && '0' <= frac[0] <= '9' {
            match spec_parse_dec_chars(whole) {
                Some(n) => if n <= (u64::MAX - 9) / 10 {
                    Some((n * 10 + (frac[0] as u64 - 48)) as u64)
                } else {
                    None
                },
                None => None,
            }
        } else {
            None
        }
    }
}

/// The first dot at or after `i`, or `-1`.
pub open spec fn spec_find_dot(s: Seq<char>, i: int) -> int
    decreases s.len() - i,
    when 0 <= i <= s.len()
{
    if i < s.len() {
        if s[i] == '.' {
            i
        } else {
            spec_find_dot(s, i + 1)
        }
    } else {
        -1
    }
}

/// Find the first dot of a string.
fn find_dot(v: &str) -> (r: Option<usize>)
    ensures
        match r {
            Some(d) => d == spec_find_dot(v@, 0) && d < v@.len(),
            None => spec_find_dot(v@, 0) == -1,
        },
{
    let n = v.unicode_len();
    let mut j: usize = 0;
    while j < n
        invariant
            n == v@.len(),
            j <= n,
            spec_find_dot(v@, 0) == spec_find_dot(v@, j as int),
        decreases n - j,
    {
        if v.get_char(j) == '.' {
            proof {
                assert(spec_find_dot(v@, j as int) == j);
            }
            return Some(j);
        }
        j = j + 1;
    }
    None
}

/// Parse the size attribute into tenths of a KB.
pub fn parse_kb_str(v: &str) -> (r: Option<u64>)
    ensures
        r == spec_parse_kb_chars(v@),
{
    let n = v.unicode_len();
    let dot = find_dot(v);
    match dot {
        None => {
            match parse_dec_str(v) {
                Some(w) => {
                    if w <= u64::MAX / 10 {
                        Some(w * 10)
                    } else {
                        None
                    }
                },
                None => None,
            }
        },
        Some(d) => {
            let whole = v.substring_char(0, d);
            let frac = v.substring_char(d + 1, n);
            proof {
                assert(whole@ =~= v@.take(d as int));
                assert(frac@ =~= v@.skip(d + 1));
            }
            if frac.unicode_len() != 1 {
                return None;
            }
            let fc = frac.get_char(0);
            if fc < '0' || fc > '9' {
                return None;
            }
            match parse_dec_str(whole) {
                Some(w) => {
                    if w <= (u64::MAX - 9) / 10 {
                        Some(w * 10 + (fc as u8 - 48) as u64)
                    } else {
                        None
                    }
                },
                None => None,
            }
        },
    }
}

/// The decimal value of an attribute when it fits a `u8`.
fn dec_attr_u8(attrs: &Vec<XmlAttr>, name: &str) -> (r: Option<u8>)
    ensures
        r == (match spec_dec_attr(spec_attrs_view(attrs@), name@) {
            Some(n) => if n <= 255 {
                Some(n as u8)
            } else {
                None::<u8>
            },
            None => None::<u8>,
        }),
{
    match attr_lookup(attrs, name) {
        Some(v) => match parse_dec_str(v.as_str()) {
            Some(n) => if n <= 255 {
                Some(n as u8)
            } else {
                None
            },
            None => None,
        },
        None => None,
    }
}

/// The decimal value of an attribute.
fn dec_attr_u64(attrs: &Vec<XmlAttr>, name: &str) -> (r: Option<u64>)
    ensures
        r == spec_dec_attr(spec_attrs_view(attrs@), name@),
{
    match attr_lookup(attrs, name) {
        Some(v) => parse_dec_str(v.as_str()),
        None => None,
    }
}

/// The boolean value of an attribute.
fn bool_attr(attrs: &Vec<XmlAttr>, name: &str) -> (r: Option<bool>)
    ensures
        r == (match spec_attr_lookup(spec_attrs_view(attrs@), name@) {
            Some(v) => spec_parse_bool_chars(v),
            None => None::<bool>,
        }),
{
    match attr_lookup(attrs, name) {
        Some(v) => parse_bool_str(v.as_str()),
        None => None,
    }
}

/// A `program` entry at spec level: its fields as character strings and
/// plain values.
pub struct SpecProgram {
    pub start_sector: Seq<char>,
    pub size_in_kb_tenths: u64,
    pub physical_partition_number: u8,
    pub part_of_single_image: bool,
    pub file_sector_offset: u64,
    pub num_partition_sectors: u64,
    pub readback_verify: bool,
    pub filename: Seq<char>,
    pub sparse: bool,
    pub start_byte_hex: Seq<char>,
    pub sector_size_in_bytes: u64,
    pub label: Seq<char>,
}

/// The boolean an attribute carries, by name.
pub open spec fn spec_bool_attr(attrs: Seq<(Seq<char>, Seq<char>)>, name: Seq<char>) -> Option<
    bool,
> {
    match spec_attr_lookup(attrs, name) {
        Some(v) => spec_parse_bool_chars(v),
        None => None,
    }
}

/// The size an attribute carries in tenths of a KB, by name.
pub open spec fn spec_kb_attr(attrs: Seq<(Seq<char>, Seq<char>)>, name: Seq<char>) -> Option<
    u64,
> {
    match spec_attr_lookup(attrs, name) {
        Some(v) => spec_parse_kb_chars(v),
        None => None,
    }
}

/// The reading of an attribute list as a `program` entry: every field
/// present and well formed, or nothing.
pub open spec fn spec_program_of_attrs(attrs: Seq<(Seq<char>, Seq<char>)>) -> Option<
    SpecProgram,
> {
    if spec_attr_lookup(attrs, "start_sector"@) is Some && spec_kb_attr(attrs, "size_in_KB"@)
        is Some && (match spec_dec_attr(attrs, "physical_partition_number"@) {
        Some(n) => n <= 255,
        None => false,
    }) && spec_bool_attr(attrs, "partofsingleimage"@) is Some && spec_dec_attr(
        attrs,
        "file_sector_offset"@,
    ) is Some && spec_dec_attr(attrs, "num_partition_sectors"@) is Some && spec_bool_attr(
        attrs,
        "readbackverify"@,
    ) is Some && spec_attr_lookup(attrs, "filename"@) is Some && spec_bool_attr(
        attrs,
        "sparse"@,
    ) is Some && spec_attr_lookup(attrs, "start_byte_hex"@) is Some && spec_dec_attr(
        attrs,
        "SECTOR_SIZE_IN_BYTES"@,
    ) is Some && spec_attr_lookup(attrs, "label"@) is Some {
        Some(
            SpecProgram {
                start_sector: spec_attr_lookup(attrs, "start_sector"@)->Some_0,
                size_in_kb_tenths: spec_kb_attr(attrs, "size_in_KB"@)->Some_0,
                physical_partition_number: spec_dec_attr(
                    attrs,
                    "physical_partition_number"@,
                )->Some_0 as u8,
                part_of_single_image: spec_bool_attr(attrs, "partofsingleimage"@)->Some_0,
                file_sector_offset: spec_dec_attr(attrs, "file_sector_offset"@)->Some_0,
                num_partition_sectors: spec_dec_attr(attrs, "num_partition_sectors"@)->Some_0,
                readback_verify: spec_bool_attr(attrs, "readbackverify"@)->Some_0,
                filename: spec_attr_lookup(attrs, "filename"@)->Some_0,
                sparse: spec_bool_attr(attrs, "sparse"@)->Some_0,
                start_byte_hex: spec_attr_lookup(attrs, "start_byte_hex"@)->Some_0,
                sector_size_in_bytes: spec_dec_attr(attrs, "SECTOR_SIZE_IN_BYTES"@)->Some_0,
                label: spec_attr_lookup(attrs, "label"@)->Some_0,
            },
        )
    } else {
        None
    }
}

/// Whether an executable entry carries a spec-level entry.
pub open spec fn spec_program_matches(p: Program, sp: SpecProgram) -> bool {
    &&& p.start_sector@ == sp.start_sector
    &&& p.size_in_kb_tenths == sp.size_in_kb_tenths
    &&& p.physical_partition_number == sp.physical_partition_number
    &&& p.part_of_single_image == sp.part_of_single_image
    &&& p.file_sector_offset == sp.file_sector_offset
    &&& p.num_partition_sectors == sp.num_partition_sectors
    &&& p.readback_verify == sp.readback_verify
    &&& p.filename@ == sp.filename
    &&& p.sparse == sp.sparse
    &&& p.start_byte_hex@ == sp.start_byte_hex
    &&& p.sector_size_in_bytes == sp.sector_size_in_bytes
    &&& p.label@ == sp.label
}

/// The char-level attribute list of a spec-level `program` entry, in
/// serialization order.
pub open spec fn spec_program_attrs_chars(sp: SpecProgram) -> Seq<(Seq<char>, Seq<char>)> {
    seq![
        ("start_sector"@, sp.start_sector),
        ("size_in_KB"@, spec_kb_render(sp.size_in_kb_tenths as nat)),
        ("physical_partition_number"@, spec_dec(sp.physical_partition_number as nat)),
        ("partofsingleimage"@, spec_bool01(sp.part_of_single_image)),
        ("file_sector_offset"@, spec_dec(sp.file_sector_offset as nat)),
        ("num_partition_sectors"@, spec_dec(sp.num_partition_sectors as nat)),
        ("readbackverify"@, spec_bool01(sp.readback_verify)),
        ("filename"@, sp.filename),
        ("sparse"@, spec_bool01(sp.sparse)),
        ("start_byte_hex"@, sp.start_byte_hex),
        ("SECTOR_SIZE_IN_BYTES"@, spec_dec(sp.sector_size_in_bytes as nat)),
        ("label"@, sp.label),
    ]
}

/// Read a `program` entry out of an attribute list. Succeeds exactly
/// when every field is present and well formed, and then returns that
/// reading.
pub fn program_from_attrs(attrs: &Vec<XmlAttr>) -> (r: Option<Program>)
    ensures
        r is Some <==> spec_program_of_attrs(spec_attrs_view(attrs@)) is Some,
        r matches Some(p) ==> spec_program_matches(
            p,
            spec_program_of_attrs(spec_attrs_view(attrs@))->Some_0,
        ),
{
    let start_sector = match attr_lookup(attrs, "start_sector") {
        Some(v) => v,
        None => { return None; },
    };
    let size_in_kb_tenths = match attr_lookup(attrs, "size_in_KB") {
        Some(v) => match parse_kb_str(v.as_str()) {
            Some(t) => t,
            None => { return None; },
        },
        None => { return None; },
    };
    let physical_partition_number = match dec_attr_u8(attrs, "physical_partition_number") {
        Some(n) => n,
        None => { return None; },
    };
    let part_of_single_image = match bool_attr(attrs, "partofsingleimage") {
        Some(b) => b,
        None => { return None; },
    };
    let file_sector_offset = match dec_attr_u64(attrs, "file_sector_offset") {
        Some(n) => n,
        None => { return None; },
    };
    let num_partition_sectors = match dec_attr_u64(attrs, "num_partition_sectors") {
        Some(n) => n,
        None => { return None; },
    };
    let readback_verify = match bool_attr(attrs, "readbackverify") {
        Some(b) => b,
        None => { return None; },
    };
    let filename = match attr_lookup(attrs, "filename") {
        Some(v) => v,
        None => { return None; },
    };
    let sparse = match bool_attr(attrs, "sparse") {
        Some(b) => b,
        None => { return None; },
    };
    let start_byte_hex = match attr_lookup(attrs, "start_byte_hex") {
        Some(v) => v,
        None => { return None; },
    };
    let sector_size_in_bytes = match dec_attr_u64(attrs, "SECTOR_SIZE_IN_BYTES") {
        Some(n) => n,
        None => { return None; },
    };
    let label = match attr_lookup(attrs, "label") {
        Some(v) => v,
        None => { return None; },
    };
    Some(
        Program {
            start_sector,
            size_in_kb_tenths,
            physical_partition_number,
            part_of_single_image,
            file_sector_offset,
            num_partition_sectors,
            readback_verify,
            filename,
            sparse,
            start_byte_hex,
            sector_size_in_bytes,
            label,
        },
    )
}

/// A `read` entry at spec level.
pub struct SpecRead {
    pub filename: Seq<char>,
    pub physical_partition_number: u8,
    pub label: Seq<char>,
    pub start_sector: u64,
    pub num_partition_sectors: u64,
    pub sector_size_in_bytes: u64,
    pub sparse: bool,
}

/// The reading of an attribute list as a `read` entry.
pub open spec fn spec_read_of_attrs(attrs: Seq<(Seq<char>, Seq<char>)>) -> Option<SpecRead> {
    if spec_attr_lookup(attrs, "filename"@) is Some && (match spec_dec_attr(
        attrs,
        "physical_partition_number"@,
    ) {
        Some(n) => n <= 255,
        None => false,
    }) && spec_attr_lookup(attrs, "label"@) is Some && spec_dec_attr(attrs, "start_sector"@)
        is Some && spec_dec_attr(attrs, "num_partition_sectors"@) is Some && spec_dec_attr(
        attrs,
        "SECTOR_SIZE_IN_BYTES"@,
    ) is Some && spec_bool_attr(attrs, "sparse"@) is Some {
        Some(
            SpecRead {
                filename: spec_attr_lookup(attrs, "filename"@)->Some_0,
                physical_partition_number: spec_dec_attr(
                    attrs,
                    "physical_partition_number"@,
                )->Some_0 as u8,
                label: spec_attr_lookup(attrs, "label"@)->Some_0,
                start_sector: spec_dec_attr(attrs, "start_sector"@)->Some_0,
                num_partition_sectors: spec_dec_attr(attrs, "num_partition_sectors"@)->Some_0,
                sector_size_in_bytes: spec_dec_attr(attrs, "SECTOR_SIZE_IN_BYTES"@)->Some_0,
                sparse: spec_bool_attr(attrs, "sparse"@)->Some_0,
            },
        )
    } else {
        None
    }
}

/// Whether an executable `read` entry carries a spec-level one.
pub open spec fn spec_read_matches(t: ReadTag, st: SpecRead) -> bool {
    &&& t.filename@ == st.filename
    &&& t.physical_partition_number == st.physical_partition_number
    &&& t.label@ == st.label
    &&& t.start_sector == st.start_sector
    &&& t.num_partition_sectors == st.num_partition_sectors
    &&& t.sector_size_in_bytes == st.sector_size_in_bytes
    &&& t.sparse == st.sparse
}

/// The char-level attribute list of a spec-level `read` entry.
pub open spec fn spec_read_attrs_chars(st: SpecRead) -> Seq<(Seq<char>, Seq<char>)> {
    seq![
        ("filename"@, st.filename),
        ("physical_partition_number"@, spec_dec(st.physical_partition_number as nat)),
        ("label"@, st.label),
        ("start_sector"@, spec_dec(st.start_sector as nat)),
        ("num_partition_sectors"@, spec_dec(st.num_partition_sectors as nat)),
        ("SECTOR_SIZE_IN_BYTES"@, spec_dec(st.sector_size_in_bytes as nat)),
        ("sparse"@, spec_bool01(st.sparse)),
    ]
}

/// Read a `read` entry out of an attribute list. Succeeds exactly when
/// every field is present and well formed.
pub fn read_from_attrs(attrs: &Vec<XmlAttr>) -> (r: Option<ReadTag>)
    ensures
        r is Some <==> spec_read_of_attrs(spec_attrs_view(attrs@)) is Some,
        r matches Some(t) ==> spec_read_matches(
            t,
            spec_read_of_attrs(spec_attrs_view(attrs@))->Some_0,
        ),
{
    let filename = match attr_lookup(attrs, "filename") {
        Some(v) => v,
        None => { return None; },
    };
    let physical_partition_number = match dec_attr_u8(attrs, "physical_partition_number") {
        Some(n) => n,
        None => { return None; },
    };
    let label = match attr_lookup(attrs, "label") {
        Some(v) => v,
        None => { return None; },
    };
    let start_sector = match dec_attr_u64(attrs, "start_sector") {
        Some(n) => n,
        None => { return None; },
    };
    let num_partition_sectors = match dec_attr_u64(attrs, "num_partition_sectors") {
        Some(n) => n,
        None => { return None; },
    };
    let sector_size_in_bytes = match dec_attr_u64(attrs, "SECTOR_SIZE_IN_BYTES") {
        Some(n) => n,
        None => { return None; },
    };
    let sparse = match bool_attr(attrs, "sparse") {
        Some(b) => b,
        None => { return None; },
    };
    Some(
        ReadTag {
            filename,
            physical_partition_number,
            label,
            start_sector,
            num_partition_sectors,
            sector_size_in_bytes,
            sparse,
        },
    )
}

/// An `erase` entry at spec level.
pub struct SpecErase {
    pub sector_size_in_bytes: u64,
    pub label: Seq<char>,
    pub physical_partition_number: u8,
    pub start_sector: u64,
    pub num_partition_sectors: u64,
}

/// The reading of an attribute list as an `erase` entry.
pub open spec fn spec_erase_of_attrs(attrs: Seq<(Seq<char>, Seq<char>)>) -> Option<SpecErase> {
    if spec_dec_attr(attrs, "SECTOR_SIZE_IN_BYTES"@) is Some && spec_attr_lookup(
        attrs,
        "label"@,
    ) is Some && (match spec_dec_attr(attrs, "physical_partition_number"@) {
        Some(n) => n <= 255,
        None => false,
    }) && spec_dec_attr(attrs, "start_sector"@) is Some && spec_dec_attr(
        attrs,
        "num_partition_sectors"@,
    ) is Some {
        Some(
            SpecErase {
                sector_size_in_bytes: spec_dec_attr(attrs, "SECTOR_SIZE_IN_BYTES"@)->Some_0,
                label: spec_attr_lookup(attrs, "label"@)->Some_0,
                physical_partition_number: spec_dec_attr(
                    attrs,
                    "physical_partition_number"@,
                )->Some_0 as u8,
                start_sector: spec_dec_attr(attrs, "start_sector"@)->Some_0,
                num_partition_sectors: spec_dec_attr(attrs, "num_partition_sectors"@)->Some_0,
            },
        )
    } else {
        None
    }
}

/// Whether an executable `erase` entry carries a spec-level one.
pub open spec fn spec_erase_matches(t: EraseTag, st: SpecErase) -> bool {
    &&& t.sector_size_in_bytes == st.sector_size_in_bytes
    &&& t.label@ == st.label
    &&& t.physical_partition_number == st.physical_partition_number
    &&& t.start_sector == st.start_sector
    &&& t.num_partition_sectors == st.num_partition_sectors
}

/// The char-level attribute list of a spec-level `erase` entry.
pub open spec fn spec_erase_attrs_chars(st: SpecErase) -> Seq<(Seq<char>, Seq<char>)> {
    seq![
        ("SECTOR_SIZE_IN_BYTES"@, spec_dec(st.sector_size_in_bytes as nat)),
        ("label"@, st.label),
        ("physical_partition_number"@, spec_dec(st.physical_partition_number as nat)),
        ("start_sector"@, spec_dec(st.start_sector as nat)),
        ("num_partition_sectors"@, spec_dec(st.num_partition_sectors as nat)),
    ]
}

/// Read an `erase` entry out of an attribute list. Succeeds exactly when
/// every field is present and well formed.
pub fn erase_from_attrs(attrs: &Vec<XmlAttr>) -> (r: Option<EraseTag>)
    ensures
        r is Some <==> spec_erase_of_attrs(spec_attrs_view(attrs@)) is Some,
        r matches Some(t) ==> spec_erase_matches(
            t,
            spec_erase_of_attrs(spec_attrs_view(attrs@))->Some_0,
        ),
{
    let sector_size_in_bytes = match dec_attr_u64(attrs, "SECTOR_SIZE_IN_BYTES") {
        Some(n) => n,
        None => { return None; },
    };
    let label = match attr_lookup(attrs, "label") {
        Some(v) => v,
        None => { return None; },
    };
    let physical_partition_number = match dec_attr_u8(attrs, "physical_partition_number") {
        Some(n) => n,
        None => { return None; },
    };
    let start_sector = match dec_attr_u64(attrs, "start_sector") {
        Some(n) => n,
        None => { return None; },
    };
    let num_partition_sectors = match dec_attr_u64(attrs, "num_partition_sectors") {
        Some(n) => n,
        None => { return None; },
    };
    Some(
        EraseTag {
            sector_size_in_bytes,
            label,
            physical_partition_number,
            start_sector,
            num_partition_sectors,
        },
    )
}

/// The position of the last path separator (slash or backslash), or
/// `-1`.
pub open spec fn spec_last_sep(s: Seq<char>) -> int
    decreases s.len(),
{
    if s.len() == 0 {
        -1
    } else if s.last() == '/' || s.last() == '\\' {
        s.len() - 1
    } else {
        spec_last_sep(s.drop_last())
    }
}

/// Split a path into its file name and its directory. When `parent_dir`
/// is nonempty the path is taken relative to it, and the directory is
/// reported under `parent_dir` too.
pub fn parse_file_path(parent_dir: &str, path: &str) -> (r: (String, String))
    ensures
        ({
            let full = if parent_dir@.len() == 0 {
                path@
            } else {
                parent_dir@ + "/"@ + path@
            };
            let sep = spec_last_sep(full);
            &&& r.0@ == full.skip(sep + 1)
            &&& r.1@ == (if sep < 0 {
                Seq::<char>::empty()
            } else {
                full.take(sep)
            })
        }),
{
    let mut full = String::new();
    if parent_dir.unicode_len() > 0 {
        full.append(parent_dir);
        full.append("/");
        full.append(path);
        proof {
            reveal_strlit("/");
        }
    } else {
        full.append(path);
        proof {
            assert(full@ =~= path@);
        }
    }
    let n = full.as_str().unicode_len();
    let sep = find_last_sep(full.as_str());
    match sep {
        Some(p) => {
            let name = full.as_str().substring_char(p + 1, n);
            let dir = full.as_str().substring_char(0, p);
            proof {
                assert(name@ =~= full@.skip(p + 1));
                assert(dir@ =~= full@.take(p as int));
            }
            (name.to_owned(), dir.to_owned())
        },
        None => {
            proof {
                assert(full@.take(0) =~= Seq::<char>::empty());
                assert(full@.skip(0) =~= full@);
            }
            (full, String::new())
        },
    }
}

/// Find the last path separator of a string.
fn find_last_sep(v: &str) -> (r: Option<usize>)
    ensures
        match r {
            Some(p) => p == spec_last_sep(v@) && p < v@.len(),
            None => spec_last_sep(v@) == -1,
        },
{
    let n = v.unicode_len();
    proof {
        assert(v@.take(n as int) =~= v@);
    }
    let mut j: usize = n;
    while j > 0
        invariant
            n == v@.len(),
            j <= n,
            spec_last_sep(v@) == spec_last_sep(v@.take(j as int)),
        decreases j,
    {
        let c = v.get_char(j - 1);
        if c == '/' || c == '\\' {
            proof {
                assert(v@.take(j as int).last() == v@[j - 1]);
                assert(spec_last_sep(v@.take(j as int)) == j - 1);
            }
            return Some(j - 1);
        }
        proof {
            assert(v@.take(j as int).drop_last() =~= v@.take(j - 1));
        }
        j = j - 1;
    }
    None
}

/// Whether a string is all whitespace.
pub open spec fn spec_all_ws_chars(s: Seq<char>) -> bool {
    forall|i: int| 0 <= i < s.len() ==> (#[trigger] s[i] == ' ' || s[i] == '\t' || s[i] == '\n'
        || s[i] == '\r')
}

/// Whether a file name is effectively empty: nothing but whitespace.
pub fn filename_is_blank(s: &str) -> (r: bool)
    ensures
        r == spec_all_ws_chars(s@),
{
    let n = s.unicode_len();
    let mut i: usize = 0;
    while i < n
        invariant
            n == s@.len(),
            i <= n,
            spec_all_ws_chars(s@.take(i as int)),
        decreases n - i,
    {
        let c = s.get_char(i);
        if !(c == ' ' || c == '\t' || c == '\n' || c == '\r') {
            assert(!spec_all_ws_chars(s@)) by {
                assert(s@[i as int] != ' ' && s@[i as int] != '\t' && s@[i as int] != '\n'
                    && s@[i as int] != '\r');
            }
            return false;
        }
        i = i + 1;
        proof {
            assert(spec_all_ws_chars(s@.take(i as int)));
        }
    }
    proof {
        assert(s@.take(n as int) =~= s@);
    }
    true
}


/// The char-level view of a parsed element's attributes.
pub open spec fn spec_elem_attrs_chars(se: crate::xml::SpecXmlElem) -> Seq<
    (Seq<char>, Seq<char>),
> {
    Seq::new(
        se.attrs.len(),
        |i: int|
            (
                crate::strings::spec_chars_of_ascii(se.attrs[i].0),
                crate::strings::spec_chars_of_ascii(se.attrs[i].1),
            ),
    )
}

/// The children of a parsed root whose name reads as `name`, in document
/// order.
pub open spec fn spec_children_named(
    cs: Seq<crate::xml::SpecXmlElem>,
    name: Seq<char>,
) -> Seq<crate::xml::SpecXmlElem>
    decreases cs.len(),
{
    if cs.len() == 0 {
        Seq::empty()
    } else {
        (if crate::strings::spec_chars_of_ascii(cs[0].name) == name {
            seq![cs[0]]
        } else {
            Seq::<crate::xml::SpecXmlElem>::empty()
        }) + spec_children_named(cs.drop_first(), name)
    }
}

/// Selecting named children distributes over concatenation.
proof fn lemma_children_named_distribute(
    a: Seq<crate::xml::SpecXmlElem>,
    b: Seq<crate::xml::SpecXmlElem>,
    name: Seq<char>,
)
    ensures
        spec_children_named(a + b, name) == spec_children_named(a, name) + spec_children_named(
            b,
            name,
        ),
    decreases a.len(),
{
    if a.len() == 0 {
        assert(a + b =~= b);
        assert(spec_children_named(a, name) + spec_children_named(b, name) =~= spec_children_named(
            b,
            name,
        ));
    } else {
        lemma_children_named_distribute(a.drop_first(), b, name);
        assert((a + b).drop_first() =~= a.drop_first() + b);
        assert((a + b)[0] == a[0]);
        assert(spec_children_named(a + b, name) =~= spec_children_named(a, name)
            + spec_children_named(b, name));
    }
}

/// Extending the child list extends its named selection.
proof fn lemma_children_named_take_step(
    cs: Seq<crate::xml::SpecXmlElem>,
    name: Seq<char>,
    i: int,
)
    requires
        0 < i <= cs.len(),
    ensures
        spec_children_named(cs.take(i), name) == spec_children_named(cs.take(i - 1), name) + (
        if crate::strings::spec_chars_of_ascii(cs[i - 1].name) == name {
            seq![cs[i - 1]]
        } else {
            Seq::<crate::xml::SpecXmlElem>::empty()
        }),
{
    assert(cs.take(i) =~= cs.take(i - 1) + seq![cs[i - 1]]);
    lemma_children_named_distribute(cs.take(i - 1), seq![cs[i - 1]], name);
    assert(seq![cs[i - 1]].drop_first() =~= Seq::<crate::xml::SpecXmlElem>::empty());
    assert(seq![cs[i - 1]][0] == cs[i - 1]);
    assert(spec_children_named(Seq::<crate::xml::SpecXmlElem>::empty(), name) =~= Seq::<
        crate::xml::SpecXmlElem,
    >::empty());
    assert(spec_children_named(seq![cs[i - 1]], name) =~= (
    if crate::strings::spec_chars_of_ascii(cs[i - 1].name) == name {
        seq![cs[i - 1]]
    } else {
        Seq::<crate::xml::SpecXmlElem>::empty()
    }));
}

/// Whether every `program` child of a root reads as an entry.
pub open spec fn spec_all_programs_ok(pcs: Seq<crate::xml::SpecXmlElem>) -> bool {
    forall|k: int|
        0 <= k < pcs.len() ==> spec_program_of_attrs(
            spec_elem_attrs_chars(#[trigger] pcs[k]),
        ) is Some
}

/// Whether every `read` child of a root reads as an entry.
pub open spec fn spec_all_reads_ok(rcs: Seq<crate::xml::SpecXmlElem>) -> bool {
    forall|k: int|
        0 <= k < rcs.len() ==> spec_read_of_attrs(
            spec_elem_attrs_chars(#[trigger] rcs[k]),
        ) is Some
}

/// Whether every `erase` child of a root reads as an entry.
pub open spec fn spec_all_erases_ok(ecs: Seq<crate::xml::SpecXmlElem>) -> bool {
    forall|k: int|
        0 <= k < ecs.len() ==> spec_erase_of_attrs(
            spec_elem_attrs_chars(#[trigger] ecs[k]),
        ) is Some
}

/// Read the `program` entries out of a plan document. Succeeds exactly
/// when the document is the XML dialect, its root is `data`, and every
/// `program` child has all its fields; the result is then the reading of
/// exactly those children, in document order.
pub fn parser_program_entries(content: &str) -> (r: Option<Vec<Program>>)
    ensures
        match crate::xml::spec_parse_doc(content.spec_bytes()) {
            Ok(sd) => {
                let pcs = spec_children_named(sd.children, "program"@);
                &&& (r is Some <==> (crate::strings::spec_chars_of_ascii(sd.root.name)
                    == "data"@ && spec_all_programs_ok(pcs)))
                &&& (r matches Some(v) ==> v@.len() == pcs.len() && (forall|k: int|
                    0 <= k < pcs.len() ==> spec_program_matches(
                        #[trigger] v@[k],
                        spec_program_of_attrs(spec_elem_attrs_chars(pcs[k]))->Some_0,
                    )))
            },
            Err(()) => r is None,
        },
{
    let ghost pd = crate::xml::spec_parse_doc(content.spec_bytes());
    let doc = match parse_document(content.as_bytes()) {
        Some(d) => d,
        None => {
            return None;
        },
    };
    let ghost sd = pd->Ok_0;
    let ghost pcs = spec_children_named(sd.children, "program"@);
    if !str_eq(doc.root.name.as_str(), "data") {
        return None;
    }
    let mut out: Vec<Program> = Vec::new();
    let mut i: usize = 0;
    proof {
        assert(spec_children_named(sd.children.take(0), "program"@) =~= Seq::<
            crate::xml::SpecXmlElem,
        >::empty());
    }
    while i < doc.children.len()
        invariant
            pd == crate::xml::spec_parse_doc(content.spec_bytes()),
            pd matches Ok(sdd) && sdd == sd,
            crate::xml::spec_doc_matches(doc, sd),
            doc.children@.len() == sd.children.len(),
            pcs == spec_children_named(sd.children, "program"@),
            i <= doc.children@.len(),
            out@.len() == spec_children_named(sd.children.take(i as int), "program"@).len(),
            spec_all_programs_ok(spec_children_named(sd.children.take(i as int), "program"@)),
            forall|k: int|
                0 <= k < out@.len() ==> spec_program_matches(
                    #[trigger] out@[k],
                    spec_program_of_attrs(
                        spec_elem_attrs_chars(
                            spec_children_named(sd.children.take(i as int), "program"@)[k],
                        ),
                    )->Some_0,
                ),
        decreases doc.children@.len() - i,
    {
        let child = &doc.children[i];
        let ghost se = sd.children[i as int];
        proof {
            assert(crate::xml::spec_elem_matches(doc.children@[i as int], se));
            assert(spec_attrs_view(child.attrs@) =~= spec_elem_attrs_chars(se));
            lemma_children_named_take_step(sd.children, "program"@, i + 1);
        }
        if str_eq(child.name.as_str(), "program") {
            match program_from_attrs(&child.attrs) {
                Some(p) => {
                    proof {
                        assert(spec_children_named(sd.children.take(i + 1), "program"@)
                            =~= spec_children_named(sd.children.take(i as int), "program"@).push(
                            se,
                        ));
                    }
                    out.push(p);
                },
                None => {
                    proof {
                        let j = spec_children_named(
                            sd.children.take(i as int),
                            "program"@,
                        ).len() as int;
                        assert(sd.children =~= sd.children.take(i + 1) + sd.children.skip(
                            i + 1,
                        ));
                        lemma_children_named_distribute(
                            sd.children.take(i + 1),
                            sd.children.skip(i + 1),
                            "program"@,
                        );
                        assert(spec_children_named(sd.children.take(i + 1), "program"@)
                            =~= spec_children_named(sd.children.take(i as int), "program"@).push(
                            se,
                        ));
                        assert(pcs[j] == se);
                        assert(!spec_all_programs_ok(pcs));
                    }
                    return None;
                },
            }
        } else {
            proof {
                assert(spec_children_named(sd.children.take(i + 1), "program"@)
                    =~= spec_children_named(sd.children.take(i as int), "program"@));
            }
        }
        i = i + 1;
    }
    proof {
        assert(sd.children.take(sd.children.len() as int) =~= sd.children);
    }
    Some(out)
}

/// Read the `read` entries out of a plan document, under the same rule.
pub fn parser_read_entries(content: &str) -> (r: Option<Vec<ReadTag>>)
    ensures
        match crate::xml::spec_parse_doc(content.spec_bytes()) {
            Ok(sd) => {
                let rcs = spec_children_named(sd.children, "read"@);
                &&& (r is Some <==> (crate::strings::spec_chars_of_ascii(sd.root.name)
                    == "data"@ && spec_all_reads_ok(rcs)))
                &&& (r matches Some(v) ==> v@.len() == rcs.len() && (forall|k: int|
                    0 <= k < rcs.len() ==> spec_read_matches(
                        #[trigger] v@[k],
                        spec_read_of_attrs(spec_elem_attrs_chars(rcs[k]))->Some_0,
                    )))
            },
            Err(()) => r is None,
        },
{
    let ghost pd = crate::xml::spec_parse_doc(content.spec_bytes());
    let doc = match parse_document(content.as_bytes()) {
        Some(d) => d,
        None => {
            return None;
        },
    };
    let ghost sd = pd->Ok_0;
    let ghost rcs = spec_children_named(sd.children, "read"@);
    if !str_eq(doc.root.name.as_str(), "data") {
        return None;
    }
    let mut out: Vec<ReadTag> = Vec::new();
    let mut i: usize = 0;
    proof {
        assert(spec_children_named(sd.children.take(0), "read"@) =~= Seq::<
            crate::xml::SpecXmlElem,
        >::empty());
    }
    while i < doc.children.len()
        invariant
            pd == crate::xml::spec_parse_doc(content.spec_bytes()),
            pd matches Ok(sdd) && sdd == sd,
            crate::xml::spec_doc_matches(doc, sd),
            doc.children@.len() == sd.children.len(),
            rcs == spec_children_named(sd.children, "read"@),
            i <= doc.children@.len(),
            out@.len() == spec_children_named(sd.children.take(i as int), "read"@).len(),
            spec_all_reads_ok(spec_children_named(sd.children.take(i as int), "read"@)),
            forall|k: int|
                0 <= k < out@.len() ==> spec_read_matches(
                    #[trigger] out@[k],
                    spec_read_of_attrs(
                        spec_elem_attrs_chars(
                            spec_children_named(sd.children.take(i as int), "read"@)[k],
                        ),
                    )->Some_0,
                ),
        decreases doc.children@.len() - i,
    {
        let child = &doc.children[i];
        let ghost se = sd.children[i as int];
        proof {
            assert(crate::xml::spec_elem_matches(doc.children@[i as int], se));
            assert(spec_attrs_view(child.attrs@) =~= spec_elem_attrs_chars(se));
            lemma_children_named_take_step(sd.children, "read"@, i + 1);
        }
        if str_eq(child.name.as_str(), "read") {
            match read_from_attrs(&child.attrs) {
                Some(t) => {
                    proof {
                        assert(spec_children_named(sd.children.take(i + 1), "read"@)
                            =~= spec_children_named(sd.children.take(i as int), "read"@).push(se));
                    }
                    out.push(t);
                },
                None => {
                    proof {
                        let j = spec_children_named(
                            sd.children.take(i as int),
                            "read"@,
                        ).len() as int;
                        assert(sd.children =~= sd.children.take(i + 1) + sd.children.skip(
                            i + 1,
                        ));
                        lemma_children_named_distribute(
                            sd.children.take(i + 1),
                            sd.children.skip(i + 1),
                            "read"@,
                        );
                        assert(spec_children_named(sd.children.take(i + 1), "read"@)
                            =~= spec_children_named(sd.children.take(i as int), "read"@).push(se));
                        assert(rcs[j] == se);
                        assert(!spec_all_reads_ok(rcs));
                    }
                    return None;
                },
            }
        } else {
            proof {
                assert(spec_children_named(sd.children.take(i + 1), "read"@)
                    =~= spec_children_named(sd.children.take(i as int), "read"@));
            }
        }
        i = i + 1;
    }
    proof {
        assert(sd.children.take(sd.children.len() as int) =~= sd.children);
    }
    Some(out)
}

/// Read the `erase` entries out of a plan document, under the same rule.
pub fn parser_erase_entries(content: &str) -> (r: Option<Vec<EraseTag>>)
    ensures
        match crate::xml::spec_parse_doc(content.spec_bytes()) {
            Ok(sd) => {
                let ecs = spec_children_named(sd.children, "erase"@);
                &&& (r is Some <==> (crate::strings::spec_chars_of_ascii(sd.root.name)
                    == "data"@ && spec_all_erases_ok(ecs)))
                &&& (r matches Some(v) ==> v@.len() == ecs.len() && (forall|k: int|
                    0 <= k < ecs.len() ==> spec_erase_matches(
                        #[trigger] v@[k],
                        spec_erase_of_attrs(spec_elem_attrs_chars(ecs[k]))->Some_0,
                    )))
            },
            Err(()) => r is None,
        },
{
    let ghost pd = crate::xml::spec_parse_doc(content.spec_bytes());
    let doc = match parse_document(content.as_bytes()) {
        Some(d) => d,
        None => {
            return None;
        },
    };
    let ghost sd = pd->Ok_0;
    let ghost ecs = spec_children_named(sd.children, "erase"@);
    if !str_eq(doc.root.name.as_str(), "data") {
        return None;
    }
    let mut out: Vec<EraseTag> = Vec::new();
    let mut i: usize = 0;
    proof {
        assert(spec_children_named(sd.children.take(0), "erase"@) =~= Seq::<
            crate::xml::SpecXmlElem,
        >::empty());
    }
    while i < doc.children.len()
        invariant
            pd == crate::xml::spec_parse_doc(content.spec_bytes()),
            pd matches Ok(sdd) && sdd == sd,
            crate::xml::spec_doc_matches(doc, sd),
            doc.children@.len() == sd.children.len(),
            ecs == spec_children_named(sd.children, "erase"@),
            i <= doc.children@.len(),
            out@.len() == spec_children_named(sd.children.take(i as int), "erase"@).len(),
            spec_all_erases_ok(spec_children_named(sd.children.take(i as int), "erase"@)),
            forall|k: int|
                0 <= k < out@.len() ==> spec_erase_matches(
                    #[trigger] out@[k],
                    spec_erase_of_attrs(
                        spec_elem_attrs_chars(
                            spec_children_named(sd.children.take(i as int), "erase"@)[k],
                        ),
                    )->Some_0,
                ),
        decreases doc.children@.len() - i,
    {
        let child = &doc.children[i];
        let ghost se = sd.children[i as int];
        proof {
            assert(crate::xml::spec_elem_matches(doc.children@[i as int], se));
            assert(spec_attrs_view(child.attrs@) =~= spec_elem_attrs_chars(se));
            lemma_children_named_take_step(sd.children, "erase"@, i + 1);
        }
        if str_eq(child.name.as_str(), "erase") {
            match erase_from_attrs(&child.attrs) {
                Some(t) => {
                    proof {
                        assert(spec_children_named(sd.children.take(i + 1), "erase"@)
                            =~= spec_children_named(sd.children.take(i as int), "erase"@).push(
                            se,
                        ));
                    }
                    out.push(t);
                },
                None => {
                    proof {
                        let j = spec_children_named(
                            sd.children.take(i as int),
                            "erase"@,
                        ).len() as int;
                        assert(sd.children =~= sd.children.take(i + 1) + sd.children.skip(
                            i + 1,
                        ));
                        lemma_children_named_distribute(
                            sd.children.take(i + 1),
                            sd.children.skip(i + 1),
                            "erase"@,
                        );
                        assert(spec_children_named(sd.children.take(i + 1), "erase"@)
                            =~= spec_children_named(sd.children.take(i as int), "erase"@).push(
                            se,
                        ));
                        assert(ecs[j] == se);
                        assert(!spec_all_erases_ok(ecs));
                    }
                    return None;
                },
            }
        } else {
            proof {
                assert(spec_children_named(sd.children.take(i + 1), "erase"@)
                    =~= spec_children_named(sd.children.take(i as int), "erase"@));
            }
        }
        i = i + 1;
    }
    proof {
        assert(sd.children.take(sd.children.len() as int) =~= sd.children);
    }
    Some(out)
}

/// The spec-level readings of a root's `program` children, valid when
/// every one reads.
pub open spec fn spec_program_readings(pcs: Seq<crate::xml::SpecXmlElem>) -> Seq<SpecProgram> {
    Seq::new(pcs.len(), |k: int| spec_program_of_attrs(spec_elem_attrs_chars(pcs[k]))->Some_0)
}

/// The full path a plan entry's file name resolves against.
pub open spec fn spec_full_path(parent: Seq<char>, name: Seq<char>) -> Seq<char> {
    if parent.len() == 0 {
        name
    } else {
        parent + "/"@ + name
    }
}

/// The base name of a full path: what follows its last separator.
pub open spec fn spec_basename(full: Seq<char>) -> Seq<char> {
    full.skip(spec_last_sep(full) + 1)
}

/// The directory of a full path: what precedes its last separator,
/// empty when there is none.
pub open spec fn spec_dirname(full: Seq<char>) -> Seq<char> {
    if spec_last_sep(full) < 0 {
        Seq::empty()
    } else {
        full.take(spec_last_sep(full))
    }
}

/// Whether a plan document splits: it parses, its root is `data`, and
/// every `program` child reads.
pub open spec fn spec_plan_splits(content: Seq<u8>) -> bool {
    match crate::xml::spec_parse_doc(content) {
        Ok(sd) => crate::strings::spec_chars_of_ascii(sd.root.name) == "data"@
            && spec_all_programs_ok(spec_children_named(sd.children, "program"@)),
        Err(()) => false,
    }
}

/// The `program` readings of a plan document that splits.
pub open spec fn spec_plan_readings(content: Seq<u8>) -> Seq<SpecProgram> {
    spec_program_readings(
        spec_children_named(
            crate::xml::spec_parse_doc(content)->Ok_0.children,
            "program"@,
        ),
    )
}

/// Split a plan document into per-partition single-entry documents: one
/// output per `program` child, in document order, each with its file
/// name rewritten to the base name and paired with the directory the
/// image lives in. A document that does not split yields nothing.
pub fn parser_program_xml(parent_dir: &str, content: &str) -> (r: Vec<(String, String, String)>)
    ensures
        spec_plan_splits(content.spec_bytes()) ==> ({
            let rs = spec_plan_readings(content.spec_bytes());
            &&& r@.len() == rs.len()
            &&& forall|k: int|
                0 <= k < rs.len() ==> ({
                    let sp = rs[k];
                    let full = spec_full_path(parent_dir@, sp.filename);
                    &&& (#[trigger] r@[k]).0@ == sp.label
                    &&& r@[k].1@ == spec_render_doc(
                        spec_render_tag(
                            "program"@,
                            spec_program_attrs_chars(
                                (SpecProgram { filename: spec_basename(full), ..sp }),
                            ),
                        ),
                    )
                    &&& r@[k].2@ == spec_dirname(full)
                })
        }),
        !spec_plan_splits(content.spec_bytes()) ==> r@.len() == 0,
{
    let mut out: Vec<(String, String, String)> = Vec::new();
    let entries = match parser_program_entries(content) {
        Some(v) => v,
        None => {
            return out;
        },
    };
    let ghost rs = spec_plan_readings(content.spec_bytes());
    let mut i: usize = 0;
    while i < entries.len()
        invariant
            spec_plan_splits(content.spec_bytes()),
            rs == spec_plan_readings(content.spec_bytes()),
            entries@.len() == rs.len(),
            forall|k: int|
                0 <= k < entries@.len() ==> spec_program_matches(#[trigger] entries@[k], rs[k]),
            i <= entries@.len(),
            out@.len() == i,
            forall|k: int|
                0 <= k < i ==> ({
                    let sp = rs[k];
                    let full = spec_full_path(parent_dir@, sp.filename);
                    &&& (#[trigger] out@[k]).0@ == sp.label
                    &&& out@[k].1@ == spec_render_doc(
                        spec_render_tag(
                            "program"@,
                            spec_program_attrs_chars(
                                (SpecProgram { filename: spec_basename(full), ..sp }),
                            ),
                        ),
                    )
                    &&& out@[k].2@ == spec_dirname(full)
                }),
        decreases entries@.len() - i,
    {
        let (file_name, dir_path) = parse_file_path(parent_dir, entries[i].filename.as_str());
        let e = &entries[i];
        let p = Program {
            start_sector: e.start_sector.clone(),
            size_in_kb_tenths: e.size_in_kb_tenths,
            physical_partition_number: e.physical_partition_number,
            part_of_single_image: e.part_of_single_image,
            file_sector_offset: e.file_sector_offset,
            num_partition_sectors: e.num_partition_sectors,
            readback_verify: e.readback_verify,
            filename: file_name,
            sparse: e.sparse,
            start_byte_hex: e.start_byte_hex.clone(),
            sector_size_in_bytes: e.sector_size_in_bytes,
            label: e.label.clone(),
        };
        let tag = p.to_xml();
        let doc = render_doc(tag.as_str());
        let label = p.label.clone();
        proof {
            let sp = rs[i as int];
            let sp2 = SpecProgram {
                filename: spec_basename(spec_full_path(parent_dir@, sp.filename)),
                ..sp
            };
            assert(spec_program_matches(p, sp2));
            assert(spec_program_attrs(p) =~= spec_program_attrs_chars(sp2));
        }
        out.push((label, doc, dir_path));
        i = i + 1;
    }
    out
}

/// The readings whose file name is more than whitespace, in order.
pub open spec fn spec_nonblank_readings(rs: Seq<SpecProgram>) -> Seq<SpecProgram>
    decreases rs.len(),
{
    if rs.len() == 0 {
        Seq::empty()
    } else {
        (if !spec_all_ws_chars(rs[0].filename) {
            seq![rs[0]]
        } else {
            Seq::<SpecProgram>::empty()
        }) + spec_nonblank_readings(rs.drop_first())
    }
}

/// Extending the readings extends their nonblank selection.
proof fn lemma_nonblank_take_step(rs: Seq<SpecProgram>, i: int)
    requires
        0 < i <= rs.len(),
    ensures
        spec_nonblank_readings(rs.take(i)) == spec_nonblank_readings(rs.take(i - 1)) + (
        if !spec_all_ws_chars(rs[i - 1].filename) {
            seq![rs[i - 1]]
        } else {
            Seq::<SpecProgram>::empty()
        }),
    decreases i,
{
    if i == 1 {
        assert(rs.take(1).drop_first() =~= Seq::<SpecProgram>::empty());
        assert(rs.take(0) =~= Seq::<SpecProgram>::empty());
        assert(rs.take(1)[0] == rs[0]);
        assert(spec_nonblank_readings(rs.take(1)) =~= spec_nonblank_readings(rs.take(0)) + (
        if !spec_all_ws_chars(rs[0].filename) {
            seq![rs[0]]
        } else {
            Seq::<SpecProgram>::empty()
        }));
    } else {
        lemma_nonblank_take_step(rs.drop_first(), i - 1);
        assert(rs.take(i).drop_first() =~= rs.drop_first().take(i - 1));
        assert(rs.take(i - 1).drop_first() =~= rs.drop_first().take(i - 2));
        assert(rs.drop_first()[i - 2] == rs[i - 1]);
        assert(rs.take(i)[0] == rs[0] && rs.take(i - 1)[0] == rs[0]);
        assert(spec_nonblank_readings(rs.take(i)) =~= spec_nonblank_readings(rs.take(i - 1)) + (
        if !spec_all_ws_chars(rs[i - 1].filename) {
            seq![rs[i - 1]]
        } else {
            Seq::<SpecProgram>::empty()
        }));
    }
}

/// Like splitting a plan document, but entries whose file name is blank
/// are dropped, and each kept entry reports its base file name and its
/// document with the original attributes.
pub fn parser_program_xml_skip_empty(parent_dir: &str, content: &str) -> (r: Vec<
    (String, String, String),
>)
    ensures
        spec_plan_splits(content.spec_bytes()) ==> ({
            let kept = spec_nonblank_readings(spec_plan_readings(content.spec_bytes()));
            &&& r@.len() == kept.len()
            &&& forall|k: int|
                0 <= k < kept.len() ==> ({
                    let sp = kept[k];
                    &&& (#[trigger] r@[k]).0@ == sp.label
                    &&& r@[k].1@ == spec_basename(spec_full_path(parent_dir@, sp.filename))
                    &&& r@[k].2@ == spec_render_doc(
                        spec_render_tag("program"@, spec_program_attrs_chars(sp)),
                    )
                })
        }),
        !spec_plan_splits(content.spec_bytes()) ==> r@.len() == 0,
{
    let mut out: Vec<(String, String, String)> = Vec::new();
    let entries = match parser_program_entries(content) {
        Some(v) => v,
        None => {
            return out;
        },
    };
    let ghost rs = spec_plan_readings(content.spec_bytes());
    let mut i: usize = 0;
    proof {
        assert(spec_nonblank_readings(rs.take(0)) =~= Seq::<SpecProgram>::empty());
    }
    while i < entries.len()
        invariant
            spec_plan_splits(content.spec_bytes()),
            rs == spec_plan_readings(content.spec_bytes()),
            entries@.len() == rs.len(),
            forall|k: int|
                0 <= k < entries@.len() ==> spec_program_matches(#[trigger] entries@[k], rs[k]),
            i <= entries@.len(),
            out@.len() == spec_nonblank_readings(rs.take(i as int)).len(),
            forall|k: int|
                0 <= k < out@.len() ==> ({
                    let sp = spec_nonblank_readings(rs.take(i as int))[k];
                    &&& (#[trigger] out@[k]).0@ == sp.label
                    &&& out@[k].1@ == spec_basename(spec_full_path(parent_dir@, sp.filename))
                    &&& out@[k].2@ == spec_render_doc(
                        spec_render_tag("program"@, spec_program_attrs_chars(sp)),
                    )
                }),
        decreases entries@.len() - i,
    {
        proof {
            lemma_nonblank_take_step(rs, i + 1);
        }
        if !filename_is_blank(entries[i].filename.as_str()) {
            let (file_name, _dir_path) = parse_file_path(
                parent_dir,
                entries[i].filename.as_str(),
            );
            let e = &entries[i];
            let p = Program {
                start_sector: e.start_sector.clone(),
                size_in_kb_tenths: e.size_in_kb_tenths,
                physical_partition_number: e.physical_partition_number,
                part_of_single_image: e.part_of_single_image,
                file_sector_offset: e.file_sector_offset,
                num_partition_sectors: e.num_partition_sectors,
                readback_verify: e.readback_verify,
                filename: e.filename.clone(),
                sparse: e.sparse,
                start_byte_hex: e.start_byte_hex.clone(),
                sector_size_in_bytes: e.sector_size_in_bytes,
                label: e.label.clone(),
            };
            let tag = p.to_xml();
            let doc = render_doc(tag.as_str());
            let label = p.label.clone();
            proof {
                let sp = rs[i as int];
                assert(spec_program_attrs(p) =~= spec_program_attrs_chars(sp));
                assert(spec_nonblank_readings(rs.take(i + 1)) =~= spec_nonblank_readings(
                    rs.take(i as int),
                ).push(sp));
            }
            out.push((label, file_name, doc));
        } else {
            proof {
                assert(spec_nonblank_readings(rs.take(i + 1)) =~= spec_nonblank_readings(
                    rs.take(i as int),
                ));
            }
        }
        i = i + 1;
    }
    proof {
        assert(rs.take(rs.len() as int) =~= rs);
    }
    out
}

/// Whether a plan document's `read` side splits.
pub open spec fn spec_read_plan_splits(content: Seq<u8>) -> bool {
    match crate::xml::spec_parse_doc(content) {
        Ok(sd) => crate::strings::spec_chars_of_ascii(sd.root.name) == "data"@
            && spec_all_reads_ok(spec_children_named(sd.children, "read"@)),
        Err(()) => false,
    }
}

/// The `read` readings of a plan document.
pub open spec fn spec_read_plan_readings(content: Seq<u8>) -> Seq<SpecRead> {
    let rcs = spec_children_named(crate::xml::spec_parse_doc(content)->Ok_0.children, "read"@);
    Seq::new(rcs.len(), |k: int| spec_read_of_attrs(spec_elem_attrs_chars(rcs[k]))->Some_0)
}

/// Split a plan document into per-entry `read` documents: one output per
/// `read` child, in document order.
pub fn parser_read_xml(content: &str) -> (r: Vec<(String, String)>)
    ensures
        spec_read_plan_splits(content.spec_bytes()) ==> ({
            let rs = spec_read_plan_readings(content.spec_bytes());
            &&& r@.len() == rs.len()
            &&& forall|k: int|
                0 <= k < rs.len() ==> (#[trigger] r@[k]).0@ == rs[k].label && r@[k].1@
                    == spec_render_doc(
                    spec_render_tag("read"@, spec_read_attrs_chars(rs[k])),
                )
        }),
        !spec_read_plan_splits(content.spec_bytes()) ==> r@.len() == 0,
{
    let mut out: Vec<(String, String)> = Vec::new();
    let entries = match parser_read_entries(content) {
        Some(v) => v,
        None => {
            return out;
        },
    };
    let ghost rs = spec_read_plan_readings(content.spec_bytes());
    let mut i: usize = 0;
    while i < entries.len()
        invariant
            spec_read_plan_splits(content.spec_bytes()),
            rs == spec_read_plan_readings(content.spec_bytes()),
            entries@.len() == rs.len(),
            forall|k: int|
                0 <= k < entries@.len() ==> spec_read_matches(#[trigger] entries@[k], rs[k]),
            i <= entries@.len(),
            out@.len() == i,
            forall|k: int|
                0 <= k < i ==> (#[trigger] out@[k]).0@ == rs[k].label && out@[k].1@
                    == spec_render_doc(
                    spec_render_tag("read"@, spec_read_attrs_chars(rs[k])),
                ),
        decreases entries@.len() - i,
    {
        let e = &entries[i];
        let t = ReadTag {
            filename: e.filename.clone(),
            physical_partition_number: e.physical_partition_number,
            label: e.label.clone(),
            start_sector: e.start_sector,
            num_partition_sectors: e.num_partition_sectors,
            sector_size_in_bytes: e.sector_size_in_bytes,
            sparse: e.sparse,
        };
        let tag = t.to_xml();
        let doc = render_doc(tag.as_str());
        let label = t.label.clone();
        proof {
            assert(spec_read_attrs(t) =~= spec_read_attrs_chars(rs[i as int]));
        }
        out.push((label, doc));
        i = i + 1;
    }
    out
}

/// Whether a plan document's `erase` side splits.
pub open spec fn spec_erase_plan_splits(content: Seq<u8>) -> bool {
    match crate::xml::spec_parse_doc(content) {
        Ok(sd) => crate::strings::spec_chars_of_ascii(sd.root.name) == "data"@
            && spec_all_erases_ok(spec_children_named(sd.children, "erase"@)),
        Err(()) => false,
    }
}

/// The `erase` readings of a plan document.
pub open spec fn spec_erase_plan_readings(content: Seq<u8>) -> Seq<SpecErase> {
    let ecs = spec_children_named(
        crate::xml::spec_parse_doc(content)->Ok_0.children,
        "erase"@,
    );
    Seq::new(ecs.len(), |k: int| spec_erase_of_attrs(spec_elem_attrs_chars(ecs[k]))->Some_0)
}

/// Split a plan document into per-entry `erase` documents: one output
/// per `erase` child, in document order.
pub fn parser_erase_xml(content: &str) -> (r: Vec<(String, String)>)
    ensures
        spec_erase_plan_splits(content.spec_bytes()) ==> ({
            let es = spec_erase_plan_readings(content.spec_bytes());
            &&& r@.len() == es.len()
            &&& forall|k: int|
                0 <= k < es.len() ==> (#[trigger] r@[k]).0@ == es[k].label && r@[k].1@
                    == spec_render_doc(
                    spec_render_tag("erase"@, spec_erase_attrs_chars(es[k])),
                )
        }),
        !spec_erase_plan_splits(content.spec_bytes()) ==> r@.len() == 0,
{
    let mut out: Vec<(String, String)> = Vec::new();
    let entries = match parser_erase_entries(content) {
        Some(v) => v,
        None => {
            return out;
        },
    };
    let ghost es = spec_erase_plan_readings(content.spec_bytes());
    let mut i: usize = 0;
    while i < entries.len()
        invariant
            spec_erase_plan_splits(content.spec_bytes()),
            es == spec_erase_plan_readings(content.spec_bytes()),
            entries@.len() == es.len(),
            forall|k: int|
                0 <= k < entries@.len() ==> spec_erase_matches(#[trigger] entries@[k], es[k]),
            i <= entries@.len(),
            out@.len() == i,
            forall|k: int|
                0 <= k < i ==> (#[trigger] out@[k]).0@ == es[k].label && out@[k].1@
                    == spec_render_doc(
                    spec_render_tag("erase"@, spec_erase_attrs_chars(es[k])),
                ),
        decreases entries@.len() - i,
    {
        let e = &entries[i];
        let t = EraseTag {
            sector_size_in_bytes: e.sector_size_in_bytes,
            label: e.label.clone(),
            physical_partition_number: e.physical_partition_number,
            start_sector: e.start_sector,
            num_partition_sectors: e.num_partition_sectors,
        };
        let tag = t.to_xml();
        let doc = render_doc(tag.as_str());
        let label = t.label.clone();
        proof {
            assert(spec_erase_attrs(t) =~= spec_erase_attrs_chars(es[i as int]));
        }
        out.push((label, doc));
        i = i + 1;
    }
    out
}

/// The concatenated rendering of a list of `program` tags.
pub open spec fn spec_programs_xml(ps: Seq<Program>) -> Seq<char>
    decreases ps.len(),
{
    if ps.len() == 0 {
        Seq::empty()
    } else {
        spec_render_tag("program"@, spec_program_attrs(ps[0])) + spec_programs_xml(
            ps.drop_first(),
        )
    }
}

/// The concatenated rendering of a list of `read` tags.
pub open spec fn spec_reads_xml(ts: Seq<ReadTag>) -> Seq<char>
    decreases ts.len(),
{
    if ts.len() == 0 {
        Seq::empty()
    } else {
        spec_render_tag("read"@, spec_read_attrs(ts[0])) + spec_reads_xml(ts.drop_first())
    }
}

/// The concatenated rendering of a list of `erase` tags.
pub open spec fn spec_erases_xml(ts: Seq<EraseTag>) -> Seq<char>
    decreases ts.len(),
{
    if ts.len() == 0 {
        Seq::empty()
    } else {
        spec_render_tag("erase"@, spec_erase_attrs(ts[0])) + spec_erases_xml(ts.drop_first())
    }
}

/// The rendering of a whole plan root: its programs, reads and erases in
/// order inside one `data` element.
pub open spec fn spec_data_root_xml(
    ps: Seq<Program>,
    rs: Seq<ReadTag>,
    es: Seq<EraseTag>,
) -> Seq<char> {
    "<data>"@ + spec_programs_xml(ps) + spec_reads_xml(rs) + spec_erases_xml(es) + "</data>"@
}

/// Extending the program list extends the rendering.
proof fn lemma_programs_xml_take_step(ps: Seq<Program>, i: int)
    requires
        0 < i <= ps.len(),
    ensures
        spec_programs_xml(ps.take(i)) == spec_programs_xml(ps.take(i - 1)) + spec_render_tag(
            "program"@,
            spec_program_attrs(ps[i - 1]),
        ),
    decreases i,
{
    if i == 1 {
        assert(ps.take(1).drop_first() =~= Seq::<Program>::empty());
        assert(ps.take(0) =~= Seq::<Program>::empty());
        assert(ps.take(1)[0] == ps[0]);
        assert(spec_programs_xml(ps.take(1)) =~= spec_programs_xml(ps.take(0)) + spec_render_tag(
            "program"@,
            spec_program_attrs(ps[0]),
        ));
    } else {
        lemma_programs_xml_take_step(ps.drop_first(), i - 1);
        assert(ps.take(i).drop_first() =~= ps.drop_first().take(i - 1));
        assert(ps.take(i - 1).drop_first() =~= ps.drop_first().take(i - 2));
        assert(ps.drop_first()[i - 2] == ps[i - 1]);
        assert(ps.take(i)[0] == ps[0] && ps.take(i - 1)[0] == ps[0]);
        assert(spec_programs_xml(ps.take(i)) =~= spec_programs_xml(ps.take(i - 1))
            + spec_render_tag("program"@, spec_program_attrs(ps[i - 1])));
    }
}

/// Extending the read list extends the rendering.
proof fn lemma_reads_xml_take_step(ts: Seq<ReadTag>, i: int)
    requires
        0 < i <= ts.len(),
    ensures
        spec_reads_xml(ts.take(i)) == spec_reads_xml(ts.take(i - 1)) + spec_render_tag(
            "read"@,
            spec_read_attrs(ts[i - 1]),
        ),
    decreases i,
{
    if i == 1 {
        assert(ts.take(1).drop_first() =~= Seq::<ReadTag>::empty());
        assert(ts.take(0) =~= Seq::<ReadTag>::empty());
        assert(ts.take(1)[0] == ts[0]);
        assert(spec_reads_xml(ts.take(1)) =~= spec_reads_xml(ts.take(0)) + spec_render_tag(
            "read"@,
            spec_read_attrs(ts[0]),
        ));
    } else {
        lemma_reads_xml_take_step(ts.drop_first(), i - 1);
        assert(ts.take(i).drop_first() =~= ts.drop_first().take(i - 1));
        assert(ts.take(i - 1).drop_first() =~= ts.drop_first().take(i - 2));
        assert(ts.drop_first()[i - 2] == ts[i - 1]);
        assert(ts.take(i)[0] == ts[0] && ts.take(i - 1)[0] == ts[0]);
        assert(spec_reads_xml(ts.take(i)) =~= spec_reads_xml(ts.take(i - 1)) + spec_render_tag(
            "read"@,
            spec_read_attrs(ts[i - 1]),
        ));
    }
}

/// Extending the erase list extends the rendering.
proof fn lemma_erases_xml_take_step(ts: Seq<EraseTag>, i: int)
    requires
        0 < i <= ts.len(),
    ensures
        spec_erases_xml(ts.take(i)) == spec_erases_xml(ts.take(i - 1)) + spec_render_tag(
            "erase"@,
            spec_erase_attrs(ts[i - 1]),
        ),
    decreases i,
{
    if i == 1 {
        assert(ts.take(1).drop_first() =~= Seq::<EraseTag>::empty());
        assert(ts.take(0) =~= Seq::<EraseTag>::empty());
        assert(ts.take(1)[0] == ts[0]);
        assert(spec_erases_xml(ts.take(1)) =~= spec_erases_xml(ts.take(0)) + spec_render_tag(
            "erase"@,
            spec_erase_attrs(ts[0]),
        ));
    } else {
        lemma_erases_xml_take_step(ts.drop_first(), i - 1);
        assert(ts.take(i).drop_first() =~= ts.drop_first().take(i - 1));
        assert(ts.take(i - 1).drop_first() =~= ts.drop_first().take(i - 2));
        assert(ts.drop_first()[i - 2] == ts[i - 1]);
        assert(ts.take(i)[0] == ts[0] && ts.take(i - 1)[0] == ts[0]);
        assert(spec_erases_xml(ts.take(i)) =~= spec_erases_xml(ts.take(i - 1)) + spec_render_tag(
            "erase"@,
            spec_erase_attrs(ts[i - 1]),
        ));
    }
}

impl DataRoot {
    /// A root with no entries.
    pub fn new() -> (r: Self)
        ensures
            r.programs@.len() == 0,
            r.read_tags@.len() == 0,
            r.erase_tags@.len() == 0,
    {
        DataRoot { programs: Vec::new(), read_tags: Vec::new(), erase_tags: Vec::new() }
    }

    /// Render the whole root: every entry's tag, in order, inside one
    /// `data` element.
    pub fn to_xml(&self) -> (r: String)
        ensures
            r@ == spec_data_root_xml(self.programs@, self.read_tags@, self.erase_tags@),
    {
        let mut out = String::from_str("<data>");
        let mut i: usize = 0;
        while i < self.programs.len()
            invariant
                i <= self.programs@.len(),
                out@ == "<data>"@ + spec_programs_xml(self.programs@.take(i as int)),
            decreases self.programs@.len() - i,
        {
            let tag = self.programs[i].to_xml();
            out.append(tag.as_str());
            i = i + 1;
            proof {
                lemma_programs_xml_take_step(self.programs@, i as int);
            }
        }
        proof {
            assert(self.programs@.take(self.programs@.len() as int) =~= self.programs@);
        }
        let ghost after_programs = "<data>"@ + spec_programs_xml(self.programs@);
        let mut j: usize = 0;
        while j < self.read_tags.len()
            invariant
                j <= self.read_tags@.len(),
                after_programs == "<data>"@ + spec_programs_xml(self.programs@),
                out@ == after_programs + spec_reads_xml(self.read_tags@.take(j as int)),
            decreases self.read_tags@.len() - j,
        {
            let tag = self.read_tags[j].to_xml();
            out.append(tag.as_str());
            j = j + 1;
            proof {
                lemma_reads_xml_take_step(self.read_tags@, j as int);
            }
        }
        proof {
            assert(self.read_tags@.take(self.read_tags@.len() as int) =~= self.read_tags@);
        }
        let ghost after_reads = after_programs + spec_reads_xml(self.read_tags@);
        let mut k: usize = 0;
        while k < self.erase_tags.len()
            invariant
                k <= self.erase_tags@.len(),
                after_reads == "<data>"@ + spec_programs_xml(self.programs@) + spec_reads_xml(
                    self.read_tags@,
                ),
                out@ == after_reads + spec_erases_xml(self.erase_tags@.take(k as int)),
            decreases self.erase_tags@.len() - k,
        {
            let tag = self.erase_tags[k].to_xml();
            out.append(tag.as_str());
            k = k + 1;
            proof {
                lemma_erases_xml_take_step(self.erase_tags@, k as int);
            }
        }
        proof {
            assert(self.erase_tags@.take(self.erase_tags@.len() as int) =~= self.erase_tags@);
        }
        out.append("</data>");
        proof {
            assert(out@ =~= spec_data_root_xml(
                self.programs@,
                self.read_tags@,
                self.erase_tags@,
            ));
        }
        out
    }
}


/// Whether a parsed table row can stand in the payload: a proper window
/// whose sector count and starting byte fit the composer's arithmetic.
pub open spec fn spec_gpt_row_kept(e: crate::gpt::SpecGptEntry) -> bool {
    &&& e.0 <= e.1
    &&& (e.1 - e.0) < u64::MAX
    &&& (e.1 - e.0 + 1) * 40 <= u64::MAX
    &&& e.0 * 4096 <= u64::MAX
}

/// The `program` tag one kept table row becomes: the entry the composer
/// builds from its LUN, window and decoded name.
pub open spec fn spec_gpt_row_tag(lun: u8, e: crate::gpt::SpecGptEntry) -> Seq<char> {
    let name = crate::gpt::spec_utf16le_chars(crate::gpt::spec_trim_nul_pairs(e.2));
    spec_render_tag(
        "program"@,
        spec_program_attrs_chars(
            SpecProgram {
                start_sector: spec_dec(e.0 as nat),
                size_in_kb_tenths: ((e.1 - e.0 + 1) * 40) as u64,
                physical_partition_number: lun,
                part_of_single_image: false,
                file_sector_offset: 0,
                num_partition_sectors: (e.1 - e.0 + 1) as u64,
                readback_verify: false,
                filename: name + ".img"@,
                sparse: false,
                start_byte_hex: spec_hex_upper((e.0 * 4096) as nat),
                sector_size_in_bytes: 4096,
                label: name,
            },
        ),
    )
}

/// The tags of one LUN's kept table rows, in table order.
pub open spec fn spec_gpt_rows_xml(lun: u8, sv: Seq<crate::gpt::SpecGptEntry>) -> Seq<char>
    decreases sv.len(),
{
    if sv.len() == 0 {
        Seq::empty()
    } else {
        (if spec_gpt_row_kept(sv[0]) {
            spec_gpt_row_tag(lun, sv[0])
        } else {
            Seq::<char>::empty()
        }) + spec_gpt_rows_xml(lun, sv.drop_first())
    }
}

/// Extending the rows extends their tags.
proof fn lemma_gpt_rows_xml_take_step(lun: u8, sv: Seq<crate::gpt::SpecGptEntry>, i: int)
    requires
        0 < i <= sv.len(),
    ensures
        spec_gpt_rows_xml(lun, sv.take(i)) == spec_gpt_rows_xml(lun, sv.take(i - 1)) + (
        if spec_gpt_row_kept(sv[i - 1]) {
            spec_gpt_row_tag(lun, sv[i - 1])
        } else {
            Seq::<char>::empty()
        }),
    decreases i,
{
    if i == 1 {
        assert(sv.take(1).drop_first() =~= Seq::<crate::gpt::SpecGptEntry>::empty());
        assert(sv.take(0) =~= Seq::<crate::gpt::SpecGptEntry>::empty());
        assert(sv.take(1)[0] == sv[0]);
        assert(spec_gpt_rows_xml(lun, sv.take(1)) =~= spec_gpt_rows_xml(lun, sv.take(0)) + (
        if spec_gpt_row_kept(sv[0]) {
            spec_gpt_row_tag(lun, sv[0])
        } else {
            Seq::<char>::empty()
        }));
    } else {
        lemma_gpt_rows_xml_take_step(lun, sv.drop_first(), i - 1);
        assert(sv.take(i).drop_first() =~= sv.drop_first().take(i - 1));
        assert(sv.take(i - 1).drop_first() =~= sv.drop_first().take(i - 2));
        assert(sv.drop_first()[i - 2] == sv[i - 1]);
        assert(sv.take(i)[0] == sv[0] && sv.take(i - 1)[0] == sv[0]);
        assert(spec_gpt_rows_xml(lun, sv.take(i)) =~= spec_gpt_rows_xml(lun, sv.take(i - 1)) + (
        if spec_gpt_row_kept(sv[i - 1]) {
            spec_gpt_row_tag(lun, sv[i - 1])
        } else {
            Seq::<char>::empty()
        }));
    }
}

/// What one LUN's image contributes to the payload: the tags of its kept
/// rows when the table parses and every name decodes, nothing otherwise.
pub open spec fn spec_lun_contribution(lun: u8, img: Seq<u8>) -> Seq<char> {
    match crate::gpt::spec_parse_raw(img, 4096) {
        Ok(sv) => if crate::gpt::spec_some_name_undecodable(sv) {
            Seq::empty()
        } else {
            spec_gpt_rows_xml(lun, sv)
        },
        Err(_) => Seq::empty(),
    }
}

/// The payload body: each image's contribution, in the given order.
pub open spec fn spec_gpt_payload_body(images: Seq<(u8, Vec<u8>)>) -> Seq<char>
    decreases images.len(),
{
    if images.len() == 0 {
        Seq::empty()
    } else {
        spec_lun_contribution(images[0].0, images[0].1@) + spec_gpt_payload_body(
            images.drop_first(),
        )
    }
}

/// Extending the image list extends the body.
proof fn lemma_gpt_payload_body_take_step(images: Seq<(u8, Vec<u8>)>, i: int)
    requires
        0 < i <= images.len(),
    ensures
        spec_gpt_payload_body(images.take(i)) == spec_gpt_payload_body(images.take(i - 1))
            + spec_lun_contribution(images[i - 1].0, images[i - 1].1@),
    decreases i,
{
    if i == 1 {
        assert(images.take(1).drop_first() =~= Seq::<(u8, Vec<u8>)>::empty());
        assert(images.take(0) =~= Seq::<(u8, Vec<u8>)>::empty());
        assert(images.take(1)[0] == images[0]);
        assert(spec_gpt_payload_body(images.take(1)) =~= spec_gpt_payload_body(images.take(0))
            + spec_lun_contribution(images[0].0, images[0].1@));
    } else {
        lemma_gpt_payload_body_take_step(images.drop_first(), i - 1);
        assert(images.take(i).drop_first() =~= images.drop_first().take(i - 1));
        assert(images.take(i - 1).drop_first() =~= images.drop_first().take(i - 2));
        assert(images.drop_first()[i - 2] == images[i - 1]);
        assert(images.take(i)[0] == images[0] && images.take(i - 1)[0] == images[0]);
        assert(spec_gpt_payload_body(images.take(i)) =~= spec_gpt_payload_body(
            images.take(i - 1),
        ) + spec_lun_contribution(images[i - 1].0, images[i - 1].1@));
    }
}

/// Build the partition-table payload out of the GPT images read from
/// each LUN: one `program` child per kept row of each image's table, in
/// LUN-then-table order, inside one `data` element. An image whose table
/// does not parse, or whose names do not decode, contributes nothing; a
/// row whose window or arithmetic does not fit is skipped, not flashed.
pub fn read_gpt_payload(gpt_images: &Vec<(u8, Vec<u8>)>) -> (r: String)
    ensures
        r@ == "<data>"@ + spec_gpt_payload_body(gpt_images@) + "</data>"@,
{
    let mut out = String::from_str("<data>");
    let mut li: usize = 0;
    proof {
        assert(spec_gpt_payload_body(gpt_images@.take(0)) =~= Seq::<char>::empty());
        assert(out@ =~= "<data>"@ + spec_gpt_payload_body(gpt_images@.take(0)));
    }
    while li < gpt_images.len()
        invariant
            li <= gpt_images@.len(),
            out@ == "<data>"@ + spec_gpt_payload_body(gpt_images@.take(li as int)),
        decreases gpt_images@.len() - li,
    {
        let lun = gpt_images[li].0;
        let ghost img = gpt_images@[li as int].1@;
        let mut parser = crate::gpt::GptParser::new();
        let parsed = parser.parse(gpt_images[li].1.as_slice(), 4096);
        proof {
            lemma_gpt_payload_body_take_step(gpt_images@, li + 1);
        }
        match parsed {
            Err(_) => {
                proof {
                    assert(spec_lun_contribution(lun, img) =~= Seq::<char>::empty());
                }
            },
            Ok(()) => {
                let ghost sv = crate::gpt::spec_parse_raw(img, 4096)->Ok_0;
                let parts = parser.partitions();
                let ghost before_lun = out@;
                let mut pi: usize = 0;
                proof {
                    assert(spec_gpt_rows_xml(lun, sv.take(0)) =~= Seq::<char>::empty());
                    assert(out@ =~= before_lun + spec_gpt_rows_xml(lun, sv.take(0)));
                }
                while pi < parts.len()
                    invariant
                        crate::gpt::spec_parse_raw(img, 4096) matches Ok(svv) && svv == sv,
                        parts@.len() == sv.len(),
                        forall|k: int|
                            0 <= k < sv.len() ==> crate::gpt::spec_entry_decoded(
                                sv[k],
                                #[trigger] parts@[k],
                            ),
                        pi <= parts@.len(),
                        out@ == before_lun + spec_gpt_rows_xml(lun, sv.take(pi as int)),
                    decreases parts@.len() - pi,
                {
                    proof {
                        lemma_gpt_rows_xml_take_step(lun, sv, pi + 1);
                    }
                    let partition = &parts[pi];
                    let keep = partition.first_lba <= partition.last_lba
                        && partition.last_lba - partition.first_lba < u64::MAX
                        && partition.last_lba - partition.first_lba < u64::MAX / 40
                        && partition.first_lba <= u64::MAX / 4096;
                    proof {
                        assert(keep == spec_gpt_row_kept(sv[pi as int])) by {
                            let e = sv[pi as int];
                            if e.0 <= e.1 && e.1 - e.0 < u64::MAX {
                                assert((e.1 - e.0 < u64::MAX / 40) == ((e.1 - e.0 + 1) * 40
                                    <= u64::MAX)) by (nonlinear_arith)
                                    requires
                                        0 <= e.1 - e.0 < u64::MAX,
                                ;
                                assert((e.0 <= u64::MAX / 4096) == (e.0 * 4096 <= u64::MAX))
                                    by (nonlinear_arith)
                                    requires
                                        0 <= e.0,
                                ;
                            }
                        }
                    }
                    if keep {
                        let sectors = partition.last_lba - partition.first_lba;
                        proof {
                            let e = sv[pi as int];
                            assert((sectors + 1) * 40 <= u64::MAX && partition.first_lba * 4096
                                <= u64::MAX);
                        }
                        let program = create_program_dynamic(
                            lun,
                            partition.first_lba,
                            sectors + 1,
                            partition.name.as_str(),
                        );
                        let tag = program.to_xml();
                        proof {
                            assert(spec_program_attrs(program) =~= spec_program_attrs_chars(
                                SpecProgram {
                                    start_sector: spec_dec(sv[pi as int].0 as nat),
                                    size_in_kb_tenths: ((sv[pi as int].1 - sv[pi as int].0 + 1)
                                        * 40) as u64,
                                    physical_partition_number: lun,
                                    part_of_single_image: false,
                                    file_sector_offset: 0,
                                    num_partition_sectors: (sv[pi as int].1 - sv[pi as int].0
                                        + 1) as u64,
                                    readback_verify: false,
                                    filename: crate::gpt::spec_utf16le_chars(
                                        crate::gpt::spec_trim_nul_pairs(sv[pi as int].2),
                                    ) + ".img"@,
                                    sparse: false,
                                    start_byte_hex: spec_hex_upper(
                                        (sv[pi as int].0 * 4096) as nat,
                                    ),
                                    sector_size_in_bytes: 4096,
                                    label: crate::gpt::spec_utf16le_chars(
                                        crate::gpt::spec_trim_nul_pairs(sv[pi as int].2),
                                    ),
                                },
                            ));
                        }
                        out.append(tag.as_str());
                    }
                    pi = pi + 1;
                    proof {
                        assert(out@ =~= before_lun + spec_gpt_rows_xml(lun, sv.take(pi as int)));
                    }
                }
                proof {
                    assert(sv.take(sv.len() as int) =~= sv);
                    assert(!crate::gpt::spec_some_name_undecodable(sv)) by {
                        if crate::gpt::spec_some_name_undecodable(sv) {
                            let k = choose|k: int|
                                0 <= k < sv.len() && !crate::gpt::spec_utf16le_ok(
                                    crate::gpt::spec_trim_nul_pairs((#[trigger] sv[k]).2),
                                );
                            assert(crate::gpt::spec_entry_decoded(sv[k], parts@[k]));
                        }
                    }
                    assert(spec_lun_contribution(lun, img) =~= spec_gpt_rows_xml(lun, sv));
                }
            },
        }
        li = li + 1;
        proof {
            assert(out@ =~= "<data>"@ + spec_gpt_payload_body(gpt_images@.take(li as int)));
        }
    }
    proof {
        assert(gpt_images@.take(gpt_images@.len() as int) =~= gpt_images@);
    }
    out.append("</data>");
    proof {
        assert(out@ =~= "<data>"@ + spec_gpt_payload_body(gpt_images@) + "</data>"@);
    }
    out
}


/// A decimal rendering is all digits and reads back to its value.
proof fn lemma_dec_parse_roundtrip(n: nat)
    ensures
        crate::strings::all_dec_digit_chars(spec_dec(n)),
        crate::strings::spec_dec_val_chars(spec_dec(n)) == n,
        spec_dec(n).len() > 0,
    decreases n,
{
    if n < 10 {
        assert(spec_dec(n) =~= seq![spec_digit(n)]);
        assert(crate::strings::spec_dec_val_chars(seq![spec_digit(n)].drop_last()) == 0) by {
            assert(seq![spec_digit(n)].drop_last() =~= Seq::<char>::empty());
        }
    } else {
        lemma_dec_parse_roundtrip(n / 10);
        assert(spec_dec(n).drop_last() =~= spec_dec(n / 10));
        assert(spec_dec(n).last() == spec_digit(n % 10));
    }
}

/// A boolean rendering reads back to its value.
proof fn lemma_bool01_parse_roundtrip(b: bool)
    ensures
        spec_parse_bool_chars(crate::firehose::spec_bool01(b)) == Some(b),
{
    reveal_strlit("1");
    reveal_strlit("0");
    reveal_strlit("true");
    reveal_strlit("false");
    assert("1"@.len() == 1 && "0"@.len() == 1 && "true"@.len() == 4 && "false"@.len() == 5);
    assert("1"@[0] == '1' && "0"@[0] == '0');
}

/// Before the first dot, digits are walked over.
proof fn lemma_find_dot_after_digits(s: Seq<char>, i: int, dlen: int)
    requires
        0 <= i <= dlen < s.len(),
        forall|j: int| i <= j < dlen ==> '0' <= #[trigger] s[j] <= '9',
        s[dlen] == '.',
    ensures
        spec_find_dot(s, i) == dlen,
    decreases dlen - i,
{
    if i < dlen {
        assert(s[i] != '.');
        lemma_find_dot_after_digits(s, i + 1, dlen);
    }
}

/// A size rendering reads back to its tenths, for sizes whose whole part
/// keeps the parser's headroom.
proof fn lemma_kb_parse_roundtrip(t: u64)
    requires
        t <= u64::MAX - 9,
    ensures
        spec_parse_kb_chars(spec_kb_render(t as nat)) == Some(t),
{
    let whole = spec_dec(t as nat / 10);
    let kbr = spec_kb_render(t as nat);
    lemma_dec_parse_roundtrip(t as nat / 10);
    assert(kbr[whole.len() as int] == '.');
    assert forall|j: int| 0 <= j < whole.len() implies '0' <= #[trigger] kbr[j] <= '9' by {
        assert(kbr[j] == whole[j]);
    }
    lemma_find_dot_after_digits(kbr, 0, whole.len() as int);
    assert(kbr.take(whole.len() as int) =~= whole);
    assert(kbr.skip(whole.len() as int + 1) =~= seq![spec_digit(t as nat % 10)]);
    assert('0' <= spec_digit(t as nat % 10) <= '9');
    assert(t as nat / 10 <= (u64::MAX - 9) as nat / 10) by {
        vstd::arithmetic::div_mod::lemma_div_is_ordered(
            t as int,
            (u64::MAX - 9) as int,
            10,
        );
    }
    assert((t / 10) * 10 + (t % 10) == t) by {
        vstd::arithmetic::div_mod::lemma_fundamental_div_mod(t as int, 10);
    }
    assert(spec_digit(t as nat % 10) as u64 - 48 == t % 10);
}

/// Reading back a rendered `program` attribute list yields the same
/// entry: the record-level round trip of the tag codec, for sizes whose
/// whole part keeps the parser's headroom.
#[verifier::rlimit(100)]
#[verifier::spinoff_prover]
pub proof fn lemma_program_attrs_roundtrip(sp: SpecProgram)
    requires
        sp.size_in_kb_tenths <= u64::MAX - 9,
    ensures
        spec_program_of_attrs(spec_program_attrs_chars(sp)) == Some(sp),
{
    let attrs = spec_program_attrs_chars(sp);
    reveal_with_fuel(crate::firehose::spec_attr_lookup, 14);
    reveal_strlit("start_sector");
    reveal_strlit("size_in_KB");
    reveal_strlit("physical_partition_number");
    reveal_strlit("partofsingleimage");
    reveal_strlit("file_sector_offset");
    reveal_strlit("num_partition_sectors");
    reveal_strlit("readbackverify");
    reveal_strlit("filename");
    reveal_strlit("sparse");
    reveal_strlit("start_byte_hex");
    reveal_strlit("SECTOR_SIZE_IN_BYTES");
    reveal_strlit("label");
    assert("start_sector"@.len() == 12);
    assert("size_in_KB"@.len() == 10);
    assert("physical_partition_number"@.len() == 25);
    assert("partofsingleimage"@.len() == 17);
    assert("file_sector_offset"@.len() == 18);
    assert("num_partition_sectors"@.len() == 21);
    assert("readbackverify"@.len() == 14);
    assert("filename"@.len() == 8);
    assert("sparse"@.len() == 6);
    assert("start_byte_hex"@.len() == 14);
    assert("SECTOR_SIZE_IN_BYTES"@.len() == 20);
    assert("label"@.len() == 5);
    assert("readbackverify"@[0] == 'r' && "start_byte_hex"@[0] == 's');
    assert(attrs.drop_first() =~= attrs.skip(1));
    lemma_dec_parse_roundtrip(sp.physical_partition_number as nat);
    lemma_dec_parse_roundtrip(sp.file_sector_offset as nat);
    lemma_dec_parse_roundtrip(sp.num_partition_sectors as nat);
    lemma_dec_parse_roundtrip(sp.sector_size_in_bytes as nat);
    lemma_bool01_parse_roundtrip(sp.part_of_single_image);
    lemma_bool01_parse_roundtrip(sp.readback_verify);
    lemma_bool01_parse_roundtrip(sp.sparse);
    lemma_kb_parse_roundtrip(sp.size_in_kb_tenths);
}

} // verus!
