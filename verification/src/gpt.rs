//! The GPT parser: the partition table read out of the first sectors of a
//! LUN, a serializer back to the same layout, and the round-trip proof
//! between the two.

use vstd::prelude::*;

use crate::bytes::{
    read_le32, read_le64, spec_le32, spec_le64, spec_u32_of_le, spec_u64_of_le,
    lemma_le32_roundtrip, lemma_le64_roundtrip, push_le32, push_le64,
};
use crate::strings::str_eq;

verus! {

/// Errors of the GPT parser.
#[derive(Clone, Copy, Debug, PartialEq, Eq, Structural)]
pub enum GptError {
    /// The buffer does not cover the two leading sectors and the header
    /// fields.
    InsufficientData,
    /// The second sector does not open with the GPT signature.
    InvalidSignature,
    /// The partition entry array lies or reaches outside the buffer.
    EntryOutOfBounds,
    /// A partition name is not valid UTF-16.
    Utf16DecodeError,
}

/// The eight signature bytes `EFI PART`.
pub open spec fn spec_gpt_signature() -> Seq<u8> {
    seq![69u8, 70u8, 73u8, 32u8, 80u8, 65u8, 82u8, 84u8]
}

/// One row of the partition entry array before name decoding: the LBA
/// window and the 72 raw name bytes.
#[derive(Clone, Debug, PartialEq)]
pub struct RawGptEntry {
    pub first_lba: u64,
    pub last_lba: u64,
    pub name_units: Vec<u8>,
}

/// The spec-level form of a raw entry.
pub type SpecGptEntry = (u64, u64, Seq<u8>);

/// Whether executable raw entries carry the spec-level entries.
pub open spec fn spec_raw_entries_match(v: Seq<RawGptEntry>, sv: Seq<SpecGptEntry>) -> bool {
    &&& v.len() == sv.len()
    &&& forall|k: int|
        0 <= k < v.len() ==> (#[trigger] v[k]).first_lba == sv[k].0 && v[k].last_lba == sv[k].1
            && v[k].name_units@ == sv[k].2
}

/// Whether the sixteen type-GUID bytes at `pos` are all zero, which marks
/// an unused row.
pub open spec fn spec_guid_zero(data: Seq<u8>, pos: int) -> bool {
    forall|j: int| pos <= j < pos + 16 ==> #[trigger] data[j] == 0
}

/// Collect the used rows of the entry array from row `i` on. A row that
/// would read past the buffer, in its declared stride or in its fixed
/// 128-byte layout, rejects the table; an all-zero type GUID is skipped.
pub open spec fn spec_collect_entries(
    data: Seq<u8>,
    eoff: int,
    esize: int,
    num: int,
    i: int,
) -> Result<Seq<SpecGptEntry>, GptError>
    decreases num - i,
    when esize >= 0 && eoff >= 0
{
    if i >= num {
        Ok(Seq::empty())
    } else {
        let pos = eoff + i * esize;
        if pos + esize > data.len() {
            Err(GptError::EntryOutOfBounds)
        } else if pos + 128 > data.len() {
            Err(GptError::EntryOutOfBounds)
        } else if spec_guid_zero(data, pos) {
            spec_collect_entries(data, eoff, esize, num, i + 1)
        } else {
            let entry = (
                spec_u64_of_le(
                    data[pos + 32],
                    data[pos + 33],
                    data[pos + 34],
                    data[pos + 35],
                    data[pos + 36],
                    data[pos + 37],
                    data[pos + 38],
                    data[pos + 39],
                ),
                spec_u64_of_le(
                    data[pos + 40],
                    data[pos + 41],
                    data[pos + 42],
                    data[pos + 43],
                    data[pos + 44],
                    data[pos + 45],
                    data[pos + 46],
                    data[pos + 47],
                ),
                data.subrange(pos + 56, pos + 128),
            );
            match spec_collect_entries(data, eoff, esize, num, i + 1) {
                Ok(rest) => Ok(seq![entry] + rest),
                Err(e) => Err(e),
            }
        }
    }
}

/// Parse the entry array of a GPT image: verify the signature at the
/// second sector, read the array's position and shape from the header,
/// and collect the used rows in order.
pub open spec fn spec_parse_raw(data: Seq<u8>, sector: int) -> Result<Seq<SpecGptEntry>, GptError,
> {
    if sector <= 0 || data.len() < 2 * sector || data.len() < sector + 88 {
        Err(GptError::InsufficientData)
    } else if data.subrange(sector, sector + 8) != spec_gpt_signature() {
        Err(GptError::InvalidSignature)
    } else {
        let pstart = spec_u64_of_le(
            data[sector + 72],
            data[sector + 73],
            data[sector + 74],
            data[sector + 75],
            data[sector + 76],
            data[sector + 77],
            data[sector + 78],
            data[sector + 79],
        );
        let num = spec_u32_of_le(
            data[sector + 80],
            data[sector + 81],
            data[sector + 82],
            data[sector + 83],
        );
        let esize = spec_u32_of_le(
            data[sector + 84],
            data[sector + 85],
            data[sector + 86],
            data[sector + 87],
        );
        let eoff = pstart * sector;
        if eoff >= data.len() {
            Err(GptError::EntryOutOfBounds)
        } else {
            spec_collect_entries(data, eoff, esize as int, num as int, 0)
        }
    }
}

/// Parse the used rows of a GPT image's entry array.
#[verifier::rlimit(100)]
pub fn parse_gpt_raw(data: &[u8], sector_size: u32) -> (r: Result<Vec<RawGptEntry>, GptError>)
    ensures
        match spec_parse_raw(data@, sector_size as int) {
            Ok(sv) => r matches Ok(v) && spec_raw_entries_match(v@, sv),
            Err(e) => r == Err::<Vec<RawGptEntry>, GptError>(e),
        },
{
    let data_n: usize = data.len();
    if sector_size == 0 {
        return Err(GptError::InsufficientData);
    }
    let sector: u64 = sector_size as u64;
    if (data_n as u64) < 2 * sector || (data_n as u64) < sector + 88 {
        return Err(GptError::InsufficientData);
    }
    let s: usize = sector_size as usize;
    if !(data[s] == 69 && data[s + 1] == 70 && data[s + 2] == 73 && data[s + 3] == 32 && data[s
        + 4] == 80 && data[s + 5] == 65 && data[s + 6] == 82 && data[s + 7] == 84) {
        proof {
            let sub = data@.subrange(s as int, s + 8);
            assert(sub[0] == data@[s as int] && sub[1] == data@[s + 1] && sub[2] == data@[s + 2]
                && sub[3] == data@[s + 3] && sub[4] == data@[s + 4] && sub[5] == data@[s + 5]
                && sub[6] == data@[s + 6] && sub[7] == data@[s + 7]);
        }
        return Err(GptError::InvalidSignature);
    }
    proof {
        assert(data@.subrange(s as int, s + 8) =~= spec_gpt_signature());
    }
    let pstart: u64 = read_le64(data, s + 72);
    let num: u32 = read_le32(data, s + 80);
    let esize: u32 = read_le32(data, s + 84);
    let eoff: u64 = match pstart.checked_mul(sector) {
        Some(v) => v,
        None => {
            proof {
                assert(pstart * sector > u64::MAX >= data@.len());
            }
            return Err(GptError::EntryOutOfBounds);
        },
    };
    if eoff >= data_n as u64 {
        return Err(GptError::EntryOutOfBounds);
    }
    let ghost d = data@;
    let ghost eo = eoff as int;
    let ghost es = esize as int;
    let ghost nm = num as int;
    let mut out: Vec<RawGptEntry> = Vec::new();
    let mut i: u32 = 0;
    proof {
        assert(spec_parse_raw(d, sector_size as int) == spec_collect_entries(d, eo, es, nm, 0));
        assert(prefix_of(out@) + spec_collect_entries(d, eo, es, nm, 0)->Ok_0
            =~= spec_collect_entries(d, eo, es, nm, 0)->Ok_0);
    }
    while i < num
        invariant
            d == data@,
            data_n == d.len(),
            eo == eoff as int && es == esize as int && nm == num as int,
            spec_parse_raw(d, sector_size as int) == spec_collect_entries(d, eo, es, nm, 0),
            i <= num,
            spec_raw_entries_match(out@, prefix_of(out@)),
            match spec_collect_entries(d, eo, es, nm, i as int) {
                Ok(rest) => spec_collect_entries(d, eo, es, nm, 0) == Ok::<
                    Seq<SpecGptEntry>,
                    GptError,
                >(prefix_of(out@) + rest),
                Err(e) => spec_collect_entries(d, eo, es, nm, 0) == Err::<
                    Seq<SpecGptEntry>,
                    GptError,
                >(e),
            },
        decreases num - i,
    {
        let ghost pos_spec = eo + (i as int) * es;
        proof {
            assert((i as u64) as int * ((esize as u64) as int) <= 0xffffffffu64 as int
                * (0xffffffffu64 as int)) by (nonlinear_arith)
                requires
                    0 <= i as u64 <= 0xffffffffu64,
                    0 <= esize as u64 <= 0xffffffffu64,
            ;
        }
        let prod: u64 = (i as u64) * (esize as u64);
        proof {
            assert(prod == (i as int) * es);
        }
        let pos: u64 = match eoff.checked_add(prod) {
            Some(v) => v,
            None => {
                proof {
                    assert(pos_spec + es > d.len());
                }
                return Err(GptError::EntryOutOfBounds);
            },
        };
        let fits: bool = match pos.checked_add(esize as u64) {
            Some(end) => end <= data_n as u64,
            None => false,
        };
        if !fits {
            proof {
                assert(pos_spec + es > d.len());
            }
            return Err(GptError::EntryOutOfBounds);
        }
        proof {
            assert(pos_spec == pos as int);
            assert(pos_spec + es <= d.len());
        }
        if (data_n as u64) - pos < 128 {
            proof {
                assert(pos_spec + 128 > d.len());
            }
            return Err(GptError::EntryOutOfBounds);
        }
        let p: usize = pos as usize;
        let mut guid_zero = true;
        let mut j: usize = 0;
        while j < 16
            invariant
                d == data@,
                data_n == d.len(),
                p + 128 <= d.len(),
                j <= 16,
                guid_zero <==> (forall|m: int| p <= m < p + j ==> #[trigger] d[m] == 0),
            decreases 16 - j,
        {
            if data[p + j] != 0 {
                guid_zero = false;
            }
            j = j + 1;
        }
        proof {
            assert(guid_zero == spec_guid_zero(d, pos_spec));
        }
        if !guid_zero {
            let first_lba = read_le64(data, p + 32);
            let last_lba = read_le64(data, p + 40);
            let mut name_units: Vec<u8> = Vec::new();
            let mut m: usize = 0;
            while m < 72
                invariant
                    d == data@,
                    data_n == d.len(),
                    p + 128 <= d.len(),
                    m <= 72,
                    name_units@ == d.subrange(p + 56, p + 56 + m),
                decreases 72 - m,
            {
                name_units.push(data[p + 56 + m]);
                m = m + 1;
                proof {
                    assert(name_units@ =~= d.subrange(p + 56, p + 56 + m));
                }
            }
            let ghost entry: SpecGptEntry = (first_lba, last_lba, d.subrange(
                pos_spec + 56,
                pos_spec + 128,
            ));
            let ghost before = out@;
            out.push(RawGptEntry { first_lba, last_lba, name_units });
            proof {
                assert(name_units@ =~= d.subrange(pos_spec + 56, pos_spec + 128));
                assert(prefix_of(out@) =~= prefix_of(before).push(entry));
                match spec_collect_entries(d, eo, es, nm, i + 1) {
                    Ok(rest) => {
                        assert(spec_collect_entries(d, eo, es, nm, i as int) == Ok::<
                            Seq<SpecGptEntry>,
                            GptError,
                        >(seq![entry] + rest));
                        assert(prefix_of(before) + (seq![entry] + rest) =~= prefix_of(out@)
                            + rest);
                    },
                    Err(_) => {},
                }
            }
        }
        i = i + 1;
    }
    proof {
        assert(spec_collect_entries(d, eo, es, nm, nm) == Ok::<Seq<SpecGptEntry>, GptError>(
            Seq::<SpecGptEntry>::empty(),
        ));
        assert(prefix_of(out@) + Seq::<SpecGptEntry>::empty() =~= prefix_of(out@));
    }
    Ok(out)
}

/// The spec entries an executable entry vector carries.
pub open spec fn prefix_of(v: Seq<RawGptEntry>) -> Seq<SpecGptEntry> {
    Seq::new(v.len(), |k: int| (v[k].first_lba, v[k].last_lba, v[k].name_units@))
}


/// Whether an entry list can be laid back out as a GPT image: at least
/// one entry, a count that fits the header field, and 72 name bytes per
/// entry.
pub open spec fn spec_entries_serializable(entries: Seq<SpecGptEntry>) -> bool {
    &&& 1 <= entries.len() <= 0xffffffff
    &&& forall|k: int| 0 <= k < entries.len() ==> (#[trigger] entries[k]).2.len() == 72
}

/// The length of the serialized image: two leading sectors, then one
/// 128-byte row per entry.
pub open spec fn spec_gpt_image_len(n: int, sector: int) -> int {
    2 * sector + 128 * n
}

/// The byte at position `i` of the serialized image: the signature and
/// header fields in the second sector, the entry rows from the third
/// sector on, zeros elsewhere. Each row carries a nonzero type GUID, the
/// LBA window, and the 72 name bytes.
pub open spec fn spec_gpt_image_byte(entries: Seq<SpecGptEntry>, sector: int, i: int) -> u8 {
    if sector <= i < sector + 8 {
        spec_gpt_signature()[i - sector]
    } else if sector + 72 <= i < sector + 80 {
        spec_le64(2)[i - (sector + 72)]
    } else if sector + 80 <= i < sector + 84 {
        spec_le32(entries.len() as u32)[i - (sector + 80)]
    } else if sector + 84 <= i < sector + 88 {
        spec_le32(128)[i - (sector + 84)]
    } else if i >= 2 * sector {
        let k = (i - 2 * sector) / 128;
        let o = (i - 2 * sector) % 128;
        if k < entries.len() {
            if o == 0 {
                1
            } else if o < 32 {
                0
            } else if o < 40 {
                spec_le64(entries[k].0)[o - 32]
            } else if o < 48 {
                spec_le64(entries[k].1)[o - 40]
            } else if o < 56 {
                0
            } else {
                entries[k].2[o - 56]
            }
        } else {
            0
        }
    } else {
        0
    }
}

/// The serialized image of an entry list.
pub open spec fn spec_serialize_raw(entries: Seq<SpecGptEntry>, sector: int) -> Seq<u8> {
    Seq::new(
        spec_gpt_image_len(entries.len() as int, sector) as nat,
        |i: int| spec_gpt_image_byte(entries, sector, i),
    )
}

/// One byte of a little-endian `u32` encoding.
fn le32_byte(x: u32, j: usize) -> (r: u8)
    requires
        j < 4,
    ensures
        r == spec_le32(x)[j as int],
{
    if j == 0 {
        (x & 0xff) as u8
    } else if j == 1 {
        ((x >> 8) & 0xff) as u8
    } else if j == 2 {
        ((x >> 16) & 0xff) as u8
    } else {
        ((x >> 24) & 0xff) as u8
    }
}

/// One byte of a little-endian `u64` encoding.
fn le64_byte(x: u64, j: usize) -> (r: u8)
    requires
        j < 8,
    ensures
        r == spec_le64(x)[j as int],
{
    if j == 0 {
        (x & 0xff) as u8
    } else if j == 1 {
        ((x >> 8) & 0xff) as u8
    } else if j == 2 {
        ((x >> 16) & 0xff) as u8
    } else if j == 3 {
        ((x >> 24) & 0xff) as u8
    } else if j == 4 {
        ((x >> 32) & 0xff) as u8
    } else if j == 5 {
        ((x >> 40) & 0xff) as u8
    } else if j == 6 {
        ((x >> 48) & 0xff) as u8
    } else {
        ((x >> 56) & 0xff) as u8
    }
}

/// The byte at position `i` of the serialized image.
fn gpt_image_byte(entries: &Vec<RawGptEntry>, sector_size: u32, i: u64) -> (r: u8)
    requires
        sector_size >= 128,
        spec_entries_serializable(prefix_of(entries@)),
        i < spec_gpt_image_len(entries@.len() as int, sector_size as int),
    ensures
        r == spec_gpt_image_byte(prefix_of(entries@), sector_size as int, i as int),
{
    let s: u64 = sector_size as u64;
    let sig: [u8; 8] = [69, 70, 73, 32, 80, 65, 82, 84];
    if s <= i && i < s + 8 {
        proof {
            assert(spec_gpt_signature()[i - s] == sig@[i - s]);
        }
        sig[(i - s) as usize]
    } else if s + 72 <= i && i < s + 80 {
        le64_byte(2, (i - (s + 72)) as usize)
    } else if s + 80 <= i && i < s + 84 {
        le32_byte(entries.len() as u32, (i - (s + 80)) as usize)
    } else if s + 84 <= i && i < s + 88 {
        le32_byte(128, (i - (s + 84)) as usize)
    } else if i >= 2 * s {
        let k: u64 = (i - 2 * s) / 128;
        let o: u64 = (i - 2 * s) % 128;
        proof {
            assert(128 * (entries@.len() as int) > i - 2 * s);
            assert(k < entries@.len()) by (nonlinear_arith)
                requires
                    k == ((i - 2 * s) as int) / 128,
                    128 * (entries@.len() as int) > (i - 2 * s) as int,
                    (i - 2 * s) as int >= 0,
            ;
        }
        if o == 0 {
            1
        } else if o < 32 {
            0
        } else if o < 40 {
            let e = &entries[k as usize];
            le64_byte(e.first_lba, (o - 32) as usize)
        } else if o < 48 {
            let e = &entries[k as usize];
            le64_byte(e.last_lba, (o - 40) as usize)
        } else if o < 56 {
            0
        } else {
            let e = &entries[k as usize];
            proof {
                assert(prefix_of(entries@)[k as int].2.len() == 72);
                assert(e.name_units@ == prefix_of(entries@)[k as int].2);
            }
            e.name_units[(o - 56) as usize]
        }
    } else {
        0
    }
}

/// Lay an entry list back out as a GPT image.
pub fn serialize_gpt_raw(entries: &Vec<RawGptEntry>, sector_size: u32) -> (r: Vec<u8>)
    requires
        sector_size >= 128,
        spec_entries_serializable(prefix_of(entries@)),
        spec_gpt_image_len(entries@.len() as int, sector_size as int) <= usize::MAX,
    ensures
        r@ == spec_serialize_raw(prefix_of(entries@), sector_size as int),
{
    let total: u64 = 2 * (sector_size as u64) + 128 * (entries.len() as u64);
    let mut out: Vec<u8> = Vec::new();
    let mut i: u64 = 0;
    while i < total
        invariant
            sector_size >= 128,
            spec_entries_serializable(prefix_of(entries@)),
            total == spec_gpt_image_len(entries@.len() as int, sector_size as int),
            total <= usize::MAX,
            i <= total,
            out@.len() == i,
            forall|j: int|
                0 <= j < i ==> #[trigger] out@[j] == spec_gpt_image_byte(
                    prefix_of(entries@),
                    sector_size as int,
                    j,
                ),
        decreases total - i,
    {
        let b = gpt_image_byte(entries, sector_size, i);
        out.push(b);
        i = i + 1;
    }
    proof {
        assert(out@ =~= spec_serialize_raw(prefix_of(entries@), sector_size as int));
    }
    out
}

/// The entry byte the image holds at row `k`, offset `o`.
proof fn lemma_image_entry_byte(entries: Seq<SpecGptEntry>, sector: int, k: int, o: int)
    requires
        sector >= 128,
        0 <= k < entries.len(),
        0 <= o < 128,
    ensures
        spec_gpt_image_byte(entries, sector, 2 * sector + 128 * k + o) == {
            if o == 0 {
                1u8
            } else if o < 32 {
                0u8
            } else if o < 40 {
                spec_le64(entries[k].0)[o - 32]
            } else if o < 48 {
                spec_le64(entries[k].1)[o - 40]
            } else if o < 56 {
                0u8
            } else {
                entries[k].2[o - 56]
            }
        },
{
    let i = 2 * sector + 128 * k + o;
    assert(128 * k + o >= 0) by (nonlinear_arith)
        requires
            k >= 0,
            o >= 0,
    ;
    vstd::arithmetic::div_mod::lemma_fundamental_div_mod_converse(128 * k + o, 128, k, o);
    assert(i - 2 * sector == 128 * k + o);
    assert((i - 2 * sector) / 128 == k && (i - 2 * sector) % 128 == o);
    assert(i >= 2 * sector);
    assert(!(sector <= i < sector + 8) && !(sector + 72 <= i < sector + 88)) by (nonlinear_arith)
        requires
            sector >= 128,
            i == 2 * sector + 128 * k + o,
            k >= 0,
            o >= 0,
    ;
}

/// Reading the entry array back out of a serialized image yields the
/// entries from row `i` on.
#[verifier::rlimit(100)]
proof fn lemma_collect_serialized(entries: Seq<SpecGptEntry>, sector: int, i: int)
    requires
        sector >= 128,
        spec_entries_serializable(entries),
        0 <= i <= entries.len(),
    ensures
        spec_collect_entries(
            spec_serialize_raw(entries, sector),
            2 * sector,
            128,
            entries.len() as int,
            i,
        ) == Ok::<Seq<SpecGptEntry>, GptError>(entries.skip(i)),
    decreases entries.len() - i,
{
    let img = spec_serialize_raw(entries, sector);
    let n = entries.len() as int;
    if i >= n {
        assert(entries.skip(i) =~= Seq::<SpecGptEntry>::empty());
    } else {
        let pos = 2 * sector + i * 128;
        assert(pos + 128 <= img.len()) by (nonlinear_arith)
            requires
                pos == 2 * sector + i * 128,
                img.len() == 2 * sector + 128 * n,
                i < n,
        ;
        assert forall|o: int| 0 <= o < 128 implies #[trigger] img[pos + o]
            == spec_gpt_image_byte(entries, sector, 2 * sector + 128 * i + o) by {
            assert(pos + o == 2 * sector + 128 * i + o);
        }
        lemma_image_entry_byte(entries, sector, i, 0);
        assert(img[pos] == 1);
        assert(!spec_guid_zero(img, pos));
        assert forall|o: int| 32 <= o < 48 implies #[trigger] img[pos + o] == (if o < 40 {
            spec_le64(entries[i].0)[o - 32]
        } else {
            spec_le64(entries[i].1)[o - 40]
        }) by {
            lemma_image_entry_byte(entries, sector, i, o);
        }
        lemma_le64_roundtrip(entries[i].0);
        lemma_le64_roundtrip(entries[i].1);
        assert forall|o: int| 56 <= o < 128 implies #[trigger] img[pos + o] == entries[i].2[o
            - 56] by {
            lemma_image_entry_byte(entries, sector, i, o);
        }
        assert(img.subrange(pos + 56, pos + 128) =~= entries[i].2);
        lemma_collect_serialized(entries, sector, i + 1);
        assert(seq![entries[i]] + entries.skip(i + 1) =~= entries.skip(i));
    }
}

/// Parsing a serialized entry list yields the same entries: the GPT
/// round trip over the parsed domain.
pub proof fn lemma_gpt_round_trip(entries: Seq<SpecGptEntry>, sector: int)
    requires
        sector >= 128,
        spec_entries_serializable(entries),
    ensures
        spec_parse_raw(spec_serialize_raw(entries, sector), sector) == Ok::<
            Seq<SpecGptEntry>,
            GptError,
        >(entries),
{
    let img = spec_serialize_raw(entries, sector);
    let n = entries.len() as int;
    assert(img.len() == 2 * sector + 128 * n);
    assert(128 * n >= 128) by (nonlinear_arith)
        requires
            n >= 1,
    ;
    assert(img.subrange(sector, sector + 8) =~= spec_gpt_signature());
    assert forall|j: int| 0 <= j < 8 implies #[trigger] img[sector + 72 + j] == spec_le64(2)[j]
        by {
        assert(sector + 72 <= sector + 72 + j < sector + 80);
    }
    lemma_le64_roundtrip(2);
    assert forall|j: int| 0 <= j < 4 implies #[trigger] img[sector + 80 + j] == spec_le32(
        entries.len() as u32,
    )[j] by {
        assert(sector + 80 <= sector + 80 + j < sector + 84);
    }
    lemma_le32_roundtrip(entries.len() as u32);
    assert forall|j: int| 0 <= j < 4 implies #[trigger] img[sector + 84 + j] == spec_le32(128)[j]
        by {
        assert(sector + 84 <= sector + 84 + j < sector + 88);
    }
    lemma_le32_roundtrip(128);
    lemma_collect_serialized(entries, sector, 0);
    assert(entries.skip(0) =~= entries);
}


/// What decoding UTF-16LE yields: whether the bytes are valid, and the
/// characters they carry. Both depend on the bytes alone.
pub uninterp spec fn spec_utf16le_ok(b: Seq<u8>) -> bool;

/// The characters a valid UTF-16LE byte string carries.
pub uninterp spec fn spec_utf16le_chars(b: Seq<u8>) -> Seq<char>;

/// Relies on the UTF-16LE codec of the `encoding` crate: strict decoding
/// returns the decoded string exactly when the bytes are valid UTF-16LE,
/// and an empty input decodes to an empty string.
#[verifier::external_body]
fn utf16le_decode(bytes: &[u8]) -> (r: Option<String>)
    ensures
        r is Some <==> spec_utf16le_ok(bytes@),
        r is Some ==> r->Some_0@ == spec_utf16le_chars(bytes@),
        bytes@.len() == 0 ==> r is Some && r->Some_0@ =~= Seq::<char>::empty(),
{
    match <dyn encoding::types::Encoding>::decode(
        encoding::all::UTF_16LE,
        bytes,
        encoding::DecoderTrap::Strict,
    ) {
        Ok(text) => Some(text),
        Err(_) => None,
    }
}

/// What lower-casing yields; it depends on the characters alone.
pub uninterp spec fn spec_lower_of(s: Seq<char>) -> Seq<char>;

/// Relies on `str::to_lowercase`: the result depends on the characters
/// alone, and an empty string stays empty.
#[verifier::external_body]
fn to_lowercase(s: &str) -> (r: String)
    ensures
        r@ == spec_lower_of(s@),
        s@.len() == 0 ==> r@.len() == 0,
{
    s.to_lowercase()
}

/// A name's raw bytes with trailing zero pairs removed.
pub open spec fn spec_trim_nul_pairs(b: Seq<u8>) -> Seq<u8>
    decreases b.len(),
{
    if b.len() >= 2 && b[b.len() - 2] == 0 && b[b.len() - 1] == 0 {
        spec_trim_nul_pairs(b.take(b.len() - 2))
    } else {
        b
    }
}

/// Remove trailing zero pairs from a name's raw bytes.
fn trim_nul_pairs(b: &[u8]) -> (r: Vec<u8>)
    ensures
        r@ == spec_trim_nul_pairs(b@),
{
    let mut end: usize = b.len();
    proof {
        assert(b@.take(b@.len() as int) =~= b@);
    }
    while end >= 2 && b[end - 2] == 0 && b[end - 1] == 0
        invariant
            end <= b@.len(),
            spec_trim_nul_pairs(b@) == spec_trim_nul_pairs(b@.take(end as int)),
        decreases end,
    {
        proof {
            assert(b@.take(end as int).take(end - 2) =~= b@.take(end - 2));
        }
        end = end - 2;
    }
    let mut out: Vec<u8> = Vec::new();
    let mut i: usize = 0;
    while i < end
        invariant
            i <= end <= b@.len(),
            out@ == b@.take(end as int).take(i as int),
        decreases end - i,
    {
        out.push(b[i]);
        i = i + 1;
        proof {
            assert(out@ =~= b@.take(end as int).take(i as int));
        }
    }
    proof {
        assert(b@.take(end as int).take(end as int) =~= b@.take(end as int));
        assert(spec_trim_nul_pairs(b@.take(end as int)) == b@.take(end as int));
    }
    out
}

/// One partition of a parsed table: its name and its LBA window.
#[derive(Clone, Debug, PartialEq)]
pub struct PartitionEntry {
    pub name: String,
    pub first_lba: u64,
    pub last_lba: u64,
}

impl PartitionEntry {
    /// The bytes the partition covers at a given sector size.
    pub fn size_in_bytes(&self, sector_size: u64) -> (r: u64)
        requires
            self.first_lba <= self.last_lba,
            self.last_lba - self.first_lba + 1 <= u64::MAX,
            (self.last_lba - self.first_lba + 1) * sector_size <= u64::MAX,
        ensures
            r == (self.last_lba - self.first_lba + 1) * sector_size,
    {
        proof {
            assert((self.last_lba - self.first_lba + 1) * sector_size >= 0) by (nonlinear_arith)
                requires
                    self.last_lba - self.first_lba + 1 >= 0,
                    sector_size >= 0,
            ;
        }
        (self.last_lba - self.first_lba + 1) * sector_size
    }

    /// The sectors the partition covers.
    pub fn size_in_sectors(&self) -> (r: u64)
        requires
            self.first_lba <= self.last_lba,
            self.last_lba - self.first_lba + 1 <= u64::MAX,
        ensures
            r == self.last_lba - self.first_lba + 1,
    {
        self.last_lba - self.first_lba + 1
    }
}

/// Whether some row's name is not valid UTF-16LE once trimmed.
pub open spec fn spec_some_name_undecodable(sv: Seq<SpecGptEntry>) -> bool {
    exists|k: int|
        0 <= k < sv.len() && !spec_utf16le_ok(spec_trim_nul_pairs((#[trigger] sv[k]).2))
}

/// The partition entry a raw row becomes once its name is decoded: the
/// LBA window carried over, the name the UTF-16LE reading of the raw
/// bytes with trailing zero pairs removed.
pub open spec fn spec_entry_decoded(raw: SpecGptEntry, e: PartitionEntry) -> bool {
    &&& e.first_lba == raw.0
    &&& e.last_lba == raw.1
    &&& spec_utf16le_ok(spec_trim_nul_pairs(raw.2))
    &&& e.name@ == spec_utf16le_chars(spec_trim_nul_pairs(raw.2))
}

/// A GPT parser: the partitions of the table it last read, in table
/// order, and the sector size it read them with.
#[derive(Clone, Debug)]
pub struct GptParser {
    partitions: Vec<PartitionEntry>,
    sector_size: u32,
}

impl GptParser {
    /// A parser that has read nothing yet, with the 512-byte default
    /// sector size.
    pub fn new() -> (r: Self)
        ensures
            r.spec_partitions().len() == 0,
            r.spec_sector_size() == 512,
    {
        GptParser { partitions: Vec::new(), sector_size: 512 }
    }

    /// The sector size of the last parse.
    pub closed spec fn spec_sector_size(self) -> u32 {
        self.sector_size
    }

    /// The partitions of the last parse.
    pub closed spec fn spec_partitions(self) -> Seq<PartitionEntry> {
        self.partitions@
    }

    /// Parse a GPT image: on success the parser holds one entry per used
    /// row, in table order, each with its name decoded; on failure it
    /// holds nothing.
    pub fn parse(&mut self, data: &[u8], sector_size: u32) -> (r: Result<(), GptError>)
        ensures
            final(self).spec_sector_size() == sector_size,
            match spec_parse_raw(data@, sector_size as int) {
                Ok(sv) => (match r {
                    Ok(()) => {
                        &&& final(self).spec_partitions().len() == sv.len()
                        &&& forall|k: int|
                            0 <= k < sv.len() ==> spec_entry_decoded(
                                sv[k],
                                #[trigger] final(self).spec_partitions()[k],
                            )
                    },
                    Err(e) => e is Utf16DecodeError && spec_some_name_undecodable(sv),
                }),
                Err(e) => r == Err::<(), GptError>(e) && final(self).spec_partitions().len() == 0,
            },
    {
        self.partitions = Vec::new();
        self.sector_size = sector_size;
        let raw = match parse_gpt_raw(data, sector_size) {
            Ok(v) => v,
            Err(e) => {
                return Err(e);
            },
        };
        let ghost sv = spec_parse_raw(data@, sector_size as int)->Ok_0;
        let mut i: usize = 0;
        while i < raw.len()
            invariant
                spec_parse_raw(data@, sector_size as int) == Ok::<Seq<SpecGptEntry>, GptError>(
                    sv,
                ),
                spec_raw_entries_match(raw@, sv),
                i <= raw@.len(),
                self.partitions@.len() == i,
                self.sector_size == sector_size,
                forall|k: int|
                    0 <= k < i ==> spec_entry_decoded(
                        sv[k],
                        #[trigger] self.partitions@[k],
                    ),
            decreases raw@.len() - i,
        {
            let trimmed = trim_nul_pairs(raw[i].name_units.as_slice());
            let name = match utf16le_decode(trimmed.as_slice()) {
                Some(n) => n,
                None => {
                    proof {
                        let kk = i as int;
                        assert(raw@[kk].name_units@ == sv[kk].2);
                        assert(trimmed@ == spec_trim_nul_pairs(sv[kk].2));
                        assert(0 <= kk < sv.len());
                        assert(!spec_utf16le_ok(spec_trim_nul_pairs((sv[kk]).2)));
                        assert(spec_some_name_undecodable(sv));
                    }
                    self.partitions = Vec::new();
                    return Err(GptError::Utf16DecodeError);
                },
            };
            let entry = PartitionEntry {
                name,
                first_lba: raw[i].first_lba,
                last_lba: raw[i].last_lba,
            };
            self.partitions.push(entry);
            i = i + 1;
        }
        Ok(())
    }

    /// The parsed partitions, in table order.
    pub fn partitions(&self) -> (r: &Vec<PartitionEntry>)
        ensures
            r@ == self.spec_partitions(),
    {
        &self.partitions
    }

    /// The first partition whose lower-cased name equals the lower-cased
    /// argument; nothing exactly when no partition's name matches.
    pub fn find_partition_by_name(&self, name: &str) -> (r: Option<&PartitionEntry>)
        ensures
            match r {
                Some(e) => exists|k: int|
                    0 <= k < self.spec_partitions().len() && #[trigger] self.spec_partitions()[k]
                        == *e && spec_lower_of(e.name@) == spec_lower_of(name@) && (forall|m: int|
                        0 <= m < k ==> spec_lower_of(
                            (#[trigger] self.spec_partitions()[m]).name@,
                        ) != spec_lower_of(name@)),
                None => forall|k: int|
                    0 <= k < self.spec_partitions().len() ==> spec_lower_of(
                        (#[trigger] self.spec_partitions()[k]).name@,
                    ) != spec_lower_of(name@),
            },
    {
        let target = to_lowercase(name);
        let mut i: usize = 0;
        while i < self.partitions.len()
            invariant
                i <= self.partitions@.len(),
                target@ == spec_lower_of(name@),
                forall|m: int|
                    0 <= m < i ==> spec_lower_of((#[trigger] self.partitions@[m]).name@)
                        != spec_lower_of(name@),
            decreases self.partitions@.len() - i,
        {
            let lowered = to_lowercase(self.partitions[i].name.as_str());
            if str_eq(lowered.as_str(), target.as_str()) {
                proof {
                    let kk = i as int;
                    assert(0 <= kk < self.spec_partitions().len());
                    assert(self.spec_partitions()[kk] == self.partitions@[kk]);
                    assert(spec_lower_of(self.partitions@[kk].name@) == spec_lower_of(name@));
                }
                return Some(&self.partitions[i]);
            }
            i = i + 1;
        }
        None
    }

    /// The partition at `index`, when there is one.
    pub fn get_partition(&self, index: usize) -> (r: Option<&PartitionEntry>)
        ensures
            index < self.spec_partitions().len() ==> (r matches Some(e) && *e
                == self.spec_partitions()[index as int]),
            index >= self.spec_partitions().len() ==> r is None,
    {
        if index < self.partitions.len() {
            Some(&self.partitions[index])
        } else {
            None
        }
    }

    /// How many partitions the last parse found.
    pub fn partition_count(&self) -> (r: usize)
        ensures
            r == self.spec_partitions().len(),
    {
        self.partitions.len()
    }

    /// The disk size in bytes for a total sector count.
    pub fn total_disk_size(&self, total_sectors: u64) -> (r: u64)
        requires
            total_sectors * self.spec_sector_size() <= u64::MAX,
        ensures
            r == total_sectors * self.spec_sector_size(),
    {
        proof {
            assert(total_sectors * (self.sector_size as u64) >= 0) by (nonlinear_arith)
                requires
                    total_sectors >= 0,
                    self.sector_size >= 0,
            ;
        }
        total_sectors * (self.sector_size as u64)
    }
}

} // verus!
