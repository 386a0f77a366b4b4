//! Reading the device-information report: pick the interesting lines out
//! of the storage tool's output, and choose the serial port a session
//! runs over.

use vstd::prelude::*;

use vstd::string::{StringExecFns, StrSliceExecFns};

use crate::strings::{spec_dec, string_push, u64_to_dec};

verus! {

/// Whether the pattern stands at offset `k`.
pub open spec fn spec_at(s: Seq<char>, pat: Seq<char>, k: int) -> bool {
    0 <= k && k + pat.len() <= s.len() && s.subrange(k, k + pat.len()) == pat
}

/// The first offset at or after `i` where the pattern stands, or `-1`.
pub open spec fn spec_find_sub(s: Seq<char>, pat: Seq<char>, i: int) -> int
    decreases s.len() - i,
    when 0 <= i <= s.len()
    via spec_find_sub_dec
{
    if i + pat.len() <= s.len() {
        if spec_at(s, pat, i) {
            i
        } else {
            spec_find_sub(s, pat, i + 1)
        }
    } else {
        -1
    }
}

#[via_fn]
proof fn spec_find_sub_dec(s: Seq<char>, pat: Seq<char>, i: int) {
    if pat.len() == 0 {
        assert(s.subrange(i, i) =~= pat);
    }
}

/// Whether the pattern occurs anywhere.
pub open spec fn spec_contains(s: Seq<char>, pat: Seq<char>) -> bool {
    spec_find_sub(s, pat, 0) >= 0
}

/// A found offset is inside the input.
pub proof fn lemma_find_sub_bounds(s: Seq<char>, pat: Seq<char>, i: int)
    requires
        0 <= i <= s.len(),
    ensures
        spec_find_sub(s, pat, i) == -1 || (i <= spec_find_sub(s, pat, i) && spec_find_sub(
            s,
            pat,
            i,
        ) + pat.len() <= s.len()),
    decreases s.len() - i,
{
    if pat.len() == 0 {
        assert(s.subrange(i, i) =~= pat);
    }
    if i + pat.len() <= s.len() && !spec_at(s, pat, i) {
        lemma_find_sub_bounds(s, pat, i + 1);
    }
}

/// Find the first occurrence of `pat` in `s`.
pub fn find_sub(s: &str, pat: &str) -> (r: Option<usize>)
    ensures
        match r {
            Some(k) => k == spec_find_sub(s@, pat@, 0) && k + pat@.len() <= s@.len(),
            None => spec_find_sub(s@, pat@, 0) == -1,
        },
{
    let n = s.unicode_len();
    let m = pat.unicode_len();
    if m == 0 {
        proof {
            assert(s@.subrange(0, 0) =~= pat@);
            assert(spec_at(s@, pat@, 0));
        }
        return Some(0);
    }
    let mut i: usize = 0;
    while i < n && n - i >= m
        invariant
            n == s@.len(),
            m == pat@.len(),
            i <= n,
            spec_find_sub(s@, pat@, 0) == spec_find_sub(s@, pat@, i as int),
        decreases n - i,
    {
        let mut k: usize = 0;
        let mut same = true;
        proof {
            assert(s@.subrange(i as int, i as int) =~= pat@.take(0));
        }
        while k < m
            invariant
                n == s@.len(),
                m == pat@.len(),
                i + m <= n,
                k <= m,
                same <==> s@.subrange(i as int, i + k) == pat@.take(k as int),
            decreases m - k,
        {
            let ghost before = same;
            if s.get_char(i + k) != pat.get_char(k) {
                same = false;
            }
            k = k + 1;
            proof {
                if same {
                    assert(s@.subrange(i as int, i + k) =~= pat@.take(k as int));
                } else {
                    if before && s@[i + k - 1] != pat@[k - 1] {
                        assert(s@.subrange(i as int, i + k)[k - 1] == s@[i + k - 1]);
                        assert(pat@.take(k as int)[k - 1] == pat@[k - 1]);
                    } else {
                        if s@.subrange(i as int, i + k) == pat@.take(k as int) {
                            assert forall|t: int| 0 <= t < k - 1 implies #[trigger] s@.subrange(
                                i as int,
                                i + k - 1,
                            )[t] == pat@.take(k - 1)[t] by {
                                assert(s@.subrange(i as int, i + k)[t] == pat@.take(k as int)[t]);
                            }
                            assert(s@.subrange(i as int, i + k - 1) =~= pat@.take(k - 1));
                        }
                    }
                }
            }
        }
        if same {
            proof {
                assert(pat@.take(m as int) =~= pat@);
                assert(spec_at(s@, pat@, i as int));
            }
            return Some(i);
        }
        proof {
            assert(pat@.take(m as int) =~= pat@);
            assert(!spec_at(s@, pat@, i as int));
        }
        i = i + 1;
    }
    proof {
        if i + pat@.len() <= s@.len() {
            assert(i < n || m == 0);
        }
    }
    None
}

/// Whether `s` contains `pat`.
pub fn str_contains(s: &str, pat: &str) -> (r: bool)
    ensures
        r == spec_contains(s@, pat@),
{
    find_sub(s, pat).is_some()
}

/// Whether a character is a hex digit.
pub open spec fn spec_is_hex_char(c: char) -> bool {
    ('0' <= c <= '9') || ('a' <= c <= 'f') || ('A' <= c <= 'F')
}

/// The first offset at or after `i` where a `0x` hex token starts.
pub open spec fn spec_find_hex_start(s: Seq<char>, i: int) -> int
    decreases s.len() - i,
    when 0 <= i <= s.len()
{
    if i + 3 <= s.len() {
        if s[i] == '0' && s[i + 1] == 'x' && spec_is_hex_char(s[i + 2]) {
            i
        } else {
            spec_find_hex_start(s, i + 1)
        }
    } else {
        -1
    }
}

/// The first offset at or after `i` that is not a hex digit.
pub open spec fn spec_scan_hex(s: Seq<char>, i: int) -> int
    decreases s.len() - i,
    when 0 <= i <= s.len()
{
    if i < s.len() && spec_is_hex_char(s[i]) {
        spec_scan_hex(s, i + 1)
    } else {
        i
    }
}

/// The first hex token of a line: `0x` followed by the maximal run of
/// hex digits, as the recognizer of the report's numbers finds it.
pub open spec fn spec_hex_token(s: Seq<char>) -> Option<Seq<char>> {
    let t = spec_find_hex_start(s, 0);
    if t < 0 {
        None
    } else {
        Some(s.subrange(t, spec_scan_hex(s, t + 2)))
    }
}

/// Whether a character is a hex digit.
fn is_hex_char(c: char) -> (r: bool)
    ensures
        r == spec_is_hex_char(c),
{
    ('0' <= c && c <= '9') || ('a' <= c && c <= 'f') || ('A' <= c && c <= 'F')
}

/// Find where the first hex token of a line starts.
fn find_hex_start(s: &str) -> (r: Option<usize>)
    ensures
        match r {
            Some(t) => t == spec_find_hex_start(s@, 0) && t + 3 <= s@.len(),
            None => spec_find_hex_start(s@, 0) == -1,
        },
{
    let n = s.unicode_len();
    let mut i: usize = 0;
    while i < n && n - i >= 3
        invariant
            n == s@.len(),
            i <= n,
            spec_find_hex_start(s@, 0) == spec_find_hex_start(s@, i as int),
        decreases n - i,
    {
        if s.get_char(i) == '0' && s.get_char(i + 1) == 'x' && is_hex_char(s.get_char(i + 2)) {
            proof {
                assert(spec_find_hex_start(s@, i as int) == i);
            }
            return Some(i);
        }
        i = i + 1;
    }
    None
}

/// Extract the first hex token of a line.
pub fn find_hex_token(s: &str) -> (r: Option<String>)
    ensures
        match r {
            Some(t) => spec_hex_token(s@) == Some(t@),
            None => spec_hex_token(s@) is None,
        },
{
    let n = s.unicode_len();
    let start = find_hex_start(s);
    let t: usize = match start {
        Some(t) => t,
        None => {
            return None;
        },
    };
    let mut e: usize = t + 2;
    while e < n && is_hex_char(s.get_char(e))
        invariant
            n == s@.len(),
            t + 2 <= e <= n,
            spec_scan_hex(s@, t + 2) == spec_scan_hex(s@, e as int),
        decreases n - e,
    {
        e = e + 1;
    }
    let mut out = String::new();
    let mut m: usize = t;
    while m < e
        invariant
            t <= m <= e <= n,
            n == s@.len(),
            out@ == s@.subrange(t as int, m as int),
        decreases e - m,
    {
        string_push(&mut out, s.get_char(m));
        m = m + 1;
        proof {
            assert(out@ =~= s@.subrange(t as int, m as int));
        }
    }
    Some(out)
}

/// The value of a hex digit character.
pub open spec fn spec_hex_char_val(c: char) -> nat {
    if '0' <= c <= '9' {
        (c as nat - 48) as nat
    } else if 'a' <= c <= 'f' {
        (c as nat - 87) as nat
    } else if 'A' <= c <= 'F' {
        (c as nat - 55) as nat
    } else {
        0
    }
}

/// The value of a hex digit string.
pub open spec fn spec_hex_val(s: Seq<char>) -> nat
    decreases s.len(),
{
    if s.len() == 0 {
        0
    } else {
        spec_hex_val(s.drop_last()) * 16 + spec_hex_char_val(s.last())
    }
}

/// Whether every character is a hex digit.
pub open spec fn all_hex_chars(s: Seq<char>) -> bool {
    forall|i: int| 0 <= i < s.len() ==> spec_is_hex_char(#[trigger] s[i])
}

/// A longer hex-digit prefix never has a smaller value.
proof fn lemma_hex_val_prefix_monotone(s: Seq<char>, i: int)
    requires
        0 < i <= s.len(),
        all_hex_chars(s),
    ensures
        spec_hex_val(s) >= spec_hex_val(s.take(i)),
    decreases s.len() - i,
{
    if i == s.len() {
        assert(s.take(i) =~= s);
    } else {
        lemma_hex_val_prefix_monotone(s, i + 1);
        assert(s.take(i + 1).drop_last() =~= s.take(i));
        assert(spec_hex_val(s.take(i + 1)) >= spec_hex_val(s.take(i)) * 16) by {
            assert(spec_is_hex_char(s.take(i + 1).last()));
        }
    }
}

/// Parse the digits of a hex token (everything after `0x`) into a `u64`.
/// Succeeds exactly on nonempty all-hex strings whose value fits.
pub fn parse_hex_str(s: &str) -> (r: Option<u64>)
    ensures
        r is Some <==> (s@.len() > 0 && all_hex_chars(s@) && spec_hex_val(s@) <= u64::MAX),
        r matches Some(v) ==> v == spec_hex_val(s@),
{
    let n = s.unicode_len();
    if n == 0 {
        return None;
    }
    let mut acc: u64 = 0;
    let mut i: usize = 0;
    while i < n
        invariant
            n == s@.len(),
            i <= n,
            all_hex_chars(s@.take(i as int)),
            acc == spec_hex_val(s@.take(i as int)),
            spec_hex_val(s@.take(i as int)) <= u64::MAX,
        decreases n - i,
    {
        let c = s.get_char(i);
        if !is_hex_char(c) {
            assert(!all_hex_chars(s@)) by {
                assert(!spec_is_hex_char(s@[i as int]));
            }
            return None;
        }
        let d: u64 = if '0' <= c && c <= '9' {
            (c as u8 - 48) as u64
        } else if 'a' <= c && c <= 'f' {
            (c as u8 - 87) as u64
        } else {
            (c as u8 - 55) as u64
        };
        let hi = match acc.checked_mul(16) {
            Some(v) => v,
            None => {
                proof {
                    assert(s@.take(i + 1).drop_last() =~= s@.take(i as int));
                    assert(s@.take(i + 1).last() == s@[i as int]);
                    if all_hex_chars(s@) {
                        lemma_hex_val_prefix_monotone(s@, i + 1);
                    }
                }
                return None;
            },
        };
        let next = match hi.checked_add(d) {
            Some(v) => v,
            None => {
                proof {
                    assert(s@.take(i + 1).drop_last() =~= s@.take(i as int));
                    assert(s@.take(i + 1).last() == s@[i as int]);
                    if all_hex_chars(s@) {
                        lemma_hex_val_prefix_monotone(s@, i + 1);
                    }
                }
                return None;
            },
        };
        proof {
            assert(s@.take(i + 1).drop_last() =~= s@.take(i as int));
            assert(s@.take(i + 1).last() == s@[i as int]);
        }
        acc = next;
        i = i + 1;
    }
    proof {
        assert(s@.take(n as int) =~= s@);
    }
    Some(acc)
}

/// One candidate serial port: its device name, whether it is a USB-class
/// port, and the product string it advertises, if any.
pub struct PortCandidate {
    pub name: String,
    pub is_usb: bool,
    pub product: Option<String>,
}

/// Pick the port a session runs over: the first USB-class candidate
/// wins, with its product string; with no USB candidate the selection
/// reads `Not found` / `N/A`.
pub fn select_port(ports: &Vec<PortCandidate>) -> (r: (String, String))
    ensures
        (exists|k: int| 0 <= k < ports@.len() && (#[trigger] ports@[k]).is_usb) ==> (exists|
            k: int,
        |
            0 <= k < ports@.len() && (#[trigger] ports@[k]).is_usb && (forall|m: int|
                0 <= m < k ==> !(#[trigger] ports@[m]).is_usb) && r.0@ == ports@[k].name@
                && (match ports@[k].product {
                Some(p) => r.1@ == p@,
                None => r.1@.len() == 0,
            })),
        !(exists|k: int| 0 <= k < ports@.len() && (#[trigger] ports@[k]).is_usb) ==> r.0@
            == "Not found"@ && r.1@ == "N/A"@,
{
    let mut i: usize = 0;
    while i < ports.len()
        invariant
            i <= ports@.len(),
            forall|m: int| 0 <= m < i ==> !(#[trigger] ports@[m]).is_usb,
        decreases ports@.len() - i,
    {
        if ports[i].is_usb {
            let name = ports[i].name.clone();
            let product = match &ports[i].product {
                Some(p) => p.clone(),
                None => String::new(),
            };
            proof {
                let kk = i as int;
                assert(0 <= kk < ports@.len() && ports@[kk].is_usb && (forall|m: int|
                    0 <= m < kk ==> !(#[trigger] ports@[m]).is_usb));
            }
            return (name, product);
        }
        i = i + 1;
    }
    (String::from_str("Not found"), String::from_str("N/A"))
}

/// Whether a character is report whitespace.
pub open spec fn spec_is_ws_char(c: char) -> bool {
    c == ' ' || c == '\t' || c == '\r' || c == '\n'
}

/// The line's quotes turned into spaces.
pub open spec fn spec_replace_quotes(s: Seq<char>) -> Seq<char> {
    Seq::new(s.len(), |i: int| if s[i] == '\'' { ' ' } else { s[i] })
}

/// The first non-whitespace offset at or after `i`, or the end.
pub open spec fn spec_trim_from(s: Seq<char>, i: int) -> int
    decreases s.len() - i,
    when 0 <= i <= s.len()
{
    if i < s.len() && spec_is_ws_char(s[i]) {
        spec_trim_from(s, i + 1)
    } else {
        i
    }
}

/// One past the last non-whitespace offset before `i`, or zero.
pub open spec fn spec_trim_to(s: Seq<char>, i: int) -> int
    decreases i,
    when 0 <= i <= s.len()
{
    if i > 0 && spec_is_ws_char(s[i - 1]) {
        spec_trim_to(s, i - 1)
    } else {
        i
    }
}

/// The string with both ends trimmed of whitespace.
pub open spec fn spec_trim(s: Seq<char>) -> Seq<char> {
    let a = spec_trim_from(s, 0);
    let b = spec_trim_to(s, s.len() as int);
    if a <= b {
        s.subrange(a, b)
    } else {
        Seq::empty()
    }
}

/// Whether a character is report whitespace.
fn ws_char(c: char) -> (r: bool)
    ensures
        r == spec_is_ws_char(c),
{
    c == ' ' || c == '\t' || c == '\r' || c == '\n'
}

/// The first non-whitespace offset of a string.
fn trim_from_idx(s: &str) -> (r: usize)
    ensures
        r == spec_trim_from(s@, 0),
        r <= s@.len(),
{
    let n = s.unicode_len();
    let mut i: usize = 0;
    while i < n
        invariant
            n == s@.len(),
            i <= n,
            spec_trim_from(s@, 0) == spec_trim_from(s@, i as int),
        decreases n - i,
    {
        if !ws_char(s.get_char(i)) {
            return i;
        }
        i = i + 1;
    }
    i
}

/// One past the last non-whitespace offset of a string.
fn trim_to_idx(s: &str) -> (r: usize)
    ensures
        r == spec_trim_to(s@, s@.len() as int),
        r <= s@.len(),
{
    let n = s.unicode_len();
    let mut j: usize = n;
    while j > 0
        invariant
            n == s@.len(),
            j <= n,
            spec_trim_to(s@, n as int) == spec_trim_to(s@, j as int),
        decreases j,
    {
        if !ws_char(s.get_char(j - 1)) {
            return j;
        }
        j = j - 1;
    }
    j
}

/// The partition-count section a report line yields, when it carries a
/// readable hex token: the token's value in decimal.
pub open spec fn spec_partition_section(line: Seq<char>) -> Option<Seq<char>> {
    match spec_hex_token(line) {
        Some(tok) => if tok.len() > 2 && all_hex_chars(tok.skip(2)) && spec_hex_val(tok.skip(2))
            <= u64::MAX {
            Some("\n Device Total Physical Partitions:"@ + spec_dec(spec_hex_val(tok.skip(2)) as nat))
        } else {
            None
        },
        None => None,
    }
}

/// The serial-number section: the line's hex token, kept as written.
pub open spec fn spec_serial_section(line: Seq<char>) -> Option<Seq<char>> {
    match spec_hex_token(line) {
        Some(tok) => Some("\n Device Serial Number:"@ + tok),
        None => None,
    }
}

/// The active-slot section: slot one is `A`, everything else `B`.
pub open spec fn spec_slot_section(line: Seq<char>) -> Option<Seq<char>> {
    match spec_hex_token(line) {
        Some(tok) => if tok.len() > 2 && all_hex_chars(tok.skip(2)) && spec_hex_val(tok.skip(2))
            <= u64::MAX {
            if spec_hex_val(tok.skip(2)) == 1 {
                Some("\n Active slot:A"@)
            } else {
                Some("\n Active slot:B"@)
            }
        } else {
            None
        },
        None => None,
    }
}

/// The storage section: what follows the first `Output:`, with quotes
/// turned into spaces and the ends trimmed.
pub open spec fn spec_storage_section(line: Seq<char>) -> Option<Seq<char>> {
    let p = spec_find_sub(line, "Output:"@, 0);
    if p < 0 {
        None
    } else {
        Some("\n Storage:"@ + spec_trim(spec_replace_quotes(line.skip(p + "Output:"@.len()))))
    }
}

/// One section of the report: the partition count read out of its line.
pub fn analysis_partition_line(line: &str) -> (r: Option<String>)
    ensures
        match spec_partition_section(line@) {
            Some(t) => r matches Some(x) && x@ == t,
            None => r is None,
        },
{
    let tok = match find_hex_token(line) {
        Some(t) => t,
        None => {
            return None;
        },
    };
    let tn = tok.as_str().unicode_len();
    if tn <= 2 {
        return None;
    }
    let digits = tok.as_str().substring_char(2, tn);
    proof {
        assert(digits@ =~= tok@.skip(2));
    }
    let value = match parse_hex_str(digits) {
        Some(v) => v,
        None => {
            return None;
        },
    };
    let mut out = String::from_str("\n Device Total Physical Partitions:");
    let dec = u64_to_dec(value);
    out.append(dec.as_str());
    Some(out)
}

/// One section of the report: the active slot read out of the boot
/// partition line. Slot one is `A`, everything else `B`.
pub fn analysis_slot_line(line: &str) -> (r: Option<String>)
    ensures
        match spec_slot_section(line@) {
            Some(t) => r matches Some(x) && x@ == t,
            None => r is None,
        },
{
    let tok = match find_hex_token(line) {
        Some(t) => t,
        None => {
            return None;
        },
    };
    let tn = tok.as_str().unicode_len();
    if tn <= 2 {
        return None;
    }
    let digits = tok.as_str().substring_char(2, tn);
    proof {
        assert(digits@ =~= tok@.skip(2));
    }
    let value = match parse_hex_str(digits) {
        Some(v) => v,
        None => {
            return None;
        },
    };
    if value == 1 {
        Some(String::from_str("\n Active slot:A"))
    } else {
        Some(String::from_str("\n Active slot:B"))
    }
}

/// One section of the report: the serial number line keeps its token.
pub fn analysis_serial_line(line: &str) -> (r: Option<String>)
    ensures
        match spec_serial_section(line@) {
            Some(t) => r matches Some(x) && x@ == t,
            None => r is None,
        },
{
    let tok = match find_hex_token(line) {
        Some(t) => t,
        None => {
            return None;
        },
    };
    let mut out = String::from_str("\n Device Serial Number:");
    out.append(tok.as_str());
    Some(out)
}

/// One section of the report: the storage inquiry, with quotes turned
/// into spaces and the ends trimmed.
pub fn analysis_storage_line(line: &str) -> (r: Option<String>)
    ensures
        match spec_storage_section(line@) {
            Some(t) => r matches Some(x) && x@ == t,
            None => r is None,
        },
{
    let pos = match find_sub(line, "Output:") {
        Some(p) => p,
        None => {
            return None;
        },
    };
    let n = line.unicode_len();
    proof {
        reveal_strlit("Output:");
        assert("Output:"@.len() == 7);
    }
    let content = line.substring_char(pos + 7, n);
    proof {
        assert(content@ =~= line@.skip(pos + 7));
    }
    let mut cleaned = String::new();
    let cn = content.unicode_len();
    let mut i: usize = 0;
    while i < cn
        invariant
            cn == content@.len(),
            i <= cn,
            cleaned@ == spec_replace_quotes(content@).take(i as int),
        decreases cn - i,
    {
        let c = content.get_char(i);
        if c == '\'' {
            string_push(&mut cleaned, ' ');
        } else {
            string_push(&mut cleaned, c);
        }
        i = i + 1;
        proof {
            assert(cleaned@ =~= spec_replace_quotes(content@).take(i as int));
        }
    }
    proof {
        assert(spec_replace_quotes(content@).take(cn as int) =~= spec_replace_quotes(content@));
    }
    let a = trim_from_idx(cleaned.as_str());
    let b = trim_to_idx(cleaned.as_str());
    let trimmed: String = if a < b {
        cleaned.as_str().substring_char(a, b).to_owned()
    } else {
        String::new()
    };
    proof {
        assert(trimmed@ =~= spec_trim(cleaned@));
    }
    let mut out = String::from_str("\n Storage:");
    out.append(trimmed.as_str());
    Some(out)
}

/// The section one report line contributes, by the keyword it carries.
pub open spec fn spec_line_section(line: Seq<char>) -> Seq<char> {
    if spec_contains(line, "Device Total Physical Partitions"@) {
        match spec_partition_section(line) {
            Some(t) => t,
            None => Seq::empty(),
        }
    } else if spec_contains(line, "Device Serial Number"@) {
        match spec_serial_section(line) {
            Some(t) => t,
            None => Seq::empty(),
        }
    } else if spec_contains(line, "UFS Inquiry Command Output"@) {
        match spec_storage_section(line) {
            Some(t) => t,
            None => Seq::empty(),
        }
    } else if spec_contains(line, "Boot Partition Enabled"@) {
        match spec_slot_section(line) {
            Some(t) => t,
            None => Seq::empty(),
        }
    } else {
        Seq::empty()
    }
}

/// The summary of a report, reading character by character from `i` with
/// `line` the partial line gathered so far: each full line contributes
/// its section, and the gathered tail counts as a final line.
pub open spec fn spec_analysis_from(s: Seq<char>, i: int, line: Seq<char>) -> Seq<char>
    decreases s.len() - i,
    when 0 <= i <= s.len()
{
    if i >= s.len() {
        spec_line_section(line)
    } else if s[i] == '\n' {
        spec_line_section(line) + spec_analysis_from(s, i + 1, Seq::empty())
    } else {
        spec_analysis_from(s, i + 1, line.push(s[i]))
    }
}

/// The whole summary of a report.
pub open spec fn spec_analysis(s: Seq<char>) -> Seq<char> {
    spec_analysis_from(s, 0, Seq::empty())
}

/// Pick the interesting lines out of the storage tool's report: the
/// physical partition count, the serial number, the storage inquiry and
/// the active slot, each as one section of the summary.
pub fn analysis_info(input: &str) -> (r: String)
    ensures
        r@ == spec_analysis(input@),
{
    let n = input.unicode_len();
    let mut out = String::new();
    let mut line = String::new();
    let mut i: usize = 0;
    proof {
        assert(out@ + spec_analysis_from(input@, 0, line@) =~= spec_analysis(input@));
    }
    while i <= n
        invariant_except_break
            n == input@.len(),
            i <= n,
            spec_analysis(input@) == out@ + spec_analysis_from(input@, i as int, line@),
        ensures
            out@ == spec_analysis(input@),
        decreases n + 1 - i,
    {
        let at_end = i == n;
        let c = if at_end {
            '\n'
        } else {
            input.get_char(i)
        };
        if c == '\n' {
            let section: Option<String> = if str_contains(
                line.as_str(),
                "Device Total Physical Partitions",
            ) {
                analysis_partition_line(line.as_str())
            } else if str_contains(line.as_str(), "Device Serial Number") {
                analysis_serial_line(line.as_str())
            } else if str_contains(line.as_str(), "UFS Inquiry Command Output") {
                analysis_storage_line(line.as_str())
            } else if str_contains(line.as_str(), "Boot Partition Enabled") {
                analysis_slot_line(line.as_str())
            } else {
                None
            };
            let ghost old_out = out@;
            let ghost old_line = line@;
            proof {
                assert((match section {
                    Some(sec) => sec@,
                    None => Seq::<char>::empty(),
                }) =~= spec_line_section(old_line));
            }
            match section {
                Some(sec) => {
                    out.append(sec.as_str());
                },
                None => {},
            }
            if at_end {
                proof {
                    assert(spec_analysis_from(input@, i as int, old_line) == spec_line_section(
                        old_line,
                    ));
                    assert(out@ =~= spec_analysis(input@));
                }
                break;
            }
            line = String::new();
            proof {
                assert(input@[i as int] == '\n');
                assert(spec_analysis_from(input@, i as int, old_line) == spec_line_section(
                    old_line,
                ) + spec_analysis_from(input@, i + 1, Seq::<char>::empty()));
                assert(out@ + spec_analysis_from(input@, i + 1, line@) =~= old_out
                    + spec_analysis_from(input@, i as int, old_line));
            }
        } else {
            let ghost old_line = line@;
            string_push(&mut line, c);
            proof {
                assert(input@[i as int] != '\n');
                assert(spec_analysis_from(input@, i as int, old_line) == spec_analysis_from(
                    input@,
                    i + 1,
                    old_line.push(input@[i as int]),
                ));
                assert(line@ =~= old_line.push(input@[i as int]));
            }
        }
        i = i + 1;
    }
    out
}

} // verus!
