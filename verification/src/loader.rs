//! The loader identifier: find the SoC tag inside a programmer blob, map
//! it to a marketing name, and collect the SHA-384 digests of the
//! self-signed CA certificates embedded in the blob.

use vstd::prelude::*;

use vstd::string::StringExecFns;

use crate::strings::{hex_of_bytes, spec_hex_of_bytes, str_eq, string_push};

verus! {

/// The five tag bytes `QCOM\0` that precede the SoC code.
pub open spec fn spec_qcom_tag() -> Seq<u8> {
    seq![81u8, 67u8, 79u8, 77u8, 0u8]
}

/// Whether the tag stands at position `i`.
pub open spec fn spec_tag_at(s: Seq<u8>, i: int) -> bool {
    0 <= i && i + 5 <= s.len() && s.subrange(i, i + 5) == spec_qcom_tag()
}

/// The first position holding the tag at or after `i`, or `-1`.
pub open spec fn spec_find_tag(s: Seq<u8>, i: int) -> int
    decreases s.len() - i,
    when 0 <= i <= s.len()
{
    if i + 5 <= s.len() {
        if spec_tag_at(s, i) {
            i
        } else {
            spec_find_tag(s, i + 1)
        }
    } else {
        -1
    }
}

/// The first NUL at or after `i`, or the input's end.
pub open spec fn spec_find_nul(s: Seq<u8>, i: int) -> int
    decreases s.len() - i,
    when 0 <= i <= s.len()
{
    if i < s.len() && s[i] != 0 {
        spec_find_nul(s, i + 1)
    } else {
        i
    }
}

/// How one byte of the SoC code is shown: printable ASCII and the space
/// stand as themselves, anything else as a dot.
pub open spec fn spec_shown_byte(b: u8) -> char {
    if (33 <= b <= 126) || b == 32 {
        b as char
    } else {
        '.'
    }
}

/// The shown form of a byte string.
pub open spec fn spec_shown(s: Seq<u8>) -> Seq<char> {
    Seq::new(s.len(), |i: int| spec_shown_byte(s[i]))
}

/// The SoC code a blob carries: the shown bytes between the first
/// `QCOM\0` tag and the next NUL; empty when the blob has no tag.
pub open spec fn spec_soc_code(s: Seq<u8>) -> Seq<char> {
    let t = spec_find_tag(s, 0);
    if t < 0 {
        Seq::empty()
    } else {
        spec_shown(s.subrange(t + 5, spec_find_nul(s, t + 5)))
    }
}

/// Find the first tag (`QCOM` then a NUL) in a blob.
fn find_qcom_tag(buffer: &[u8]) -> (r: Option<usize>)
    ensures
        match r {
            Some(t) => t == spec_find_tag(buffer@, 0) && t + 5 <= buffer@.len(),
            None => spec_find_tag(buffer@, 0) == -1,
        },
{
    let mut j: usize = 0;
    while j < buffer.len() && buffer.len() - j >= 5
        invariant
            j <= buffer@.len(),
            spec_find_tag(buffer@, 0) == spec_find_tag(buffer@, j as int),
        decreases buffer@.len() - j,
    {
        if buffer[j] == 81 && buffer[j + 1] == 67 && buffer[j + 2] == 79 && buffer[j + 3] == 77
            && buffer[j + 4] == 0 {
            proof {
                assert(buffer@.subrange(j as int, j + 5) =~= spec_qcom_tag());
            }
            return Some(j);
        }
        proof {
            assert(buffer@.subrange(j as int, j + 5)[0] == buffer@[j as int]);
            assert(buffer@.subrange(j as int, j + 5)[1] == buffer@[j + 1]);
            assert(buffer@.subrange(j as int, j + 5)[2] == buffer@[j + 2]);
            assert(buffer@.subrange(j as int, j + 5)[3] == buffer@[j + 3]);
            assert(buffer@.subrange(j as int, j + 5)[4] == buffer@[j + 4]);
            assert(!spec_tag_at(buffer@, j as int));
        }
        j = j + 1;
    }
    None
}

/// Extract the SoC code out of a programmer blob.
pub fn extract_soc_code(buffer: &[u8]) -> (r: String)
    ensures
        r@ == spec_soc_code(buffer@),
{
    let buf_n: usize = buffer.len();
    let tag = find_qcom_tag(buffer);
    let start: usize = match tag {
        Some(t) => {
            proof {
                assert(t + 5 <= buf_n);
            }
            t + 5
        },
        None => {
            return String::new();
        },
    };
    let mut end: usize = start;
    while end < buffer.len() && buffer[end] != 0
        invariant
            start <= end <= buffer@.len(),
            spec_find_nul(buffer@, start as int) == spec_find_nul(buffer@, end as int),
        decreases buffer@.len() - end,
    {
        end = end + 1;
    }
    let mut out = String::new();
    let mut m: usize = start;
    while m < end
        invariant
            start <= m <= end <= buffer@.len(),
            out@ == spec_shown(buffer@.subrange(start as int, m as int)),
        decreases end - m,
    {
        let b = buffer[m];
        if (33 <= b && b <= 126) || b == 32 {
            string_push(&mut out, b as char);
        } else {
            string_push(&mut out, '.');
        }
        m = m + 1;
        proof {
            assert(out@ =~= spec_shown(buffer@.subrange(start as int, m as int)));
        }
    }
    out
}

/// The marketing-name table: what each known SoC code maps to.
pub open spec fn spec_soc_name(code: Seq<char>) -> Option<Seq<char>> {
    if code == "SM4250"@ {
        Some("Snapdragon 460"@)
    } else if code == "SM4350"@ {
        Some("Snapdragon 480"@)
    } else if code == "SM6375"@ {
        Some("Snapdragon 695"@)
    } else if code == "SM7475"@ {
        Some("Snapdragon 7+ Gen 2"@)
    } else if code == "SM7675"@ {
        Some("Snapdragon 7+ Gen 3"@)
    } else if code == "SM8350"@ {
        Some("Snapdragon 888"@)
    } else if code == "SM8450"@ {
        Some("Snapdragon 8 Gen 1"@)
    } else if code == "SM8475"@ {
        Some("Snapdragon 8+ Gen 1"@)
    } else if code == "SM8550"@ {
        Some("Snapdragon 8 Gen 2"@)
    } else if code == "SM8650"@ {
        Some("Snapdragon 8 Gen 3"@)
    } else if code == "SM8750"@ {
        Some("Snapdragon 8 Elite"@)
    } else {
        None
    }
}

/// The marketing name of a SoC code, when the table knows it.
pub fn soc_marketing_name(code: &str) -> (r: Option<String>)
    ensures
        match spec_soc_name(code@) {
            Some(n) => r matches Some(x) && x@ == n,
            None => r is None,
        },
{
    proof {
        reveal_strlit("SM4250");
        reveal_strlit("SM4350");
        reveal_strlit("SM6375");
        reveal_strlit("SM7475");
        reveal_strlit("SM7675");
        reveal_strlit("SM8350");
        reveal_strlit("SM8450");
        reveal_strlit("SM8475");
        reveal_strlit("SM8550");
        reveal_strlit("SM8650");
        reveal_strlit("SM8750");
        assert("SM4250"@ =~= seq!['S', 'M', '4', '2', '5', '0']);
        assert("SM4350"@ =~= seq!['S', 'M', '4', '3', '5', '0']);
        assert("SM6375"@ =~= seq!['S', 'M', '6', '3', '7', '5']);
        assert("SM7475"@ =~= seq!['S', 'M', '7', '4', '7', '5']);
        assert("SM7675"@ =~= seq!['S', 'M', '7', '6', '7', '5']);
        assert("SM8350"@ =~= seq!['S', 'M', '8', '3', '5', '0']);
        assert("SM8450"@ =~= seq!['S', 'M', '8', '4', '5', '0']);
        assert("SM8475"@ =~= seq!['S', 'M', '8', '4', '7', '5']);
        assert("SM8550"@ =~= seq!['S', 'M', '8', '5', '5', '0']);
        assert("SM8650"@ =~= seq!['S', 'M', '8', '6', '5', '0']);
        assert("SM8750"@ =~= seq!['S', 'M', '8', '7', '5', '0']);
    }
    if str_eq(code, "SM4250") {
        Some(String::from_str("Snapdragon 460"))
    } else if str_eq(code, "SM4350") {
        Some(String::from_str("Snapdragon 480"))
    } else if str_eq(code, "SM6375") {
        Some(String::from_str("Snapdragon 695"))
    } else if str_eq(code, "SM7475") {
        Some(String::from_str("Snapdragon 7+ Gen 2"))
    } else if str_eq(code, "SM7675") {
        Some(String::from_str("Snapdragon 7+ Gen 3"))
    } else if str_eq(code, "SM8350") {
        Some(String::from_str("Snapdragon 888"))
    } else if str_eq(code, "SM8450") {
        Some(String::from_str("Snapdragon 8 Gen 1"))
    } else if str_eq(code, "SM8475") {
        Some(String::from_str("Snapdragon 8+ Gen 1"))
    } else if str_eq(code, "SM8550") {
        Some(String::from_str("Snapdragon 8 Gen 2"))
    } else if str_eq(code, "SM8650") {
        Some(String::from_str("Snapdragon 8 Gen 3"))
    } else if str_eq(code, "SM8750") {
        Some(String::from_str("Snapdragon 8 Elite"))
    } else {
        None
    }
}

/// Identify a programmer blob: the SoC code with its marketing name in
/// parentheses, or `(Unknown)` when the table does not know the code.
pub fn identify_loader(buffer: &[u8]) -> (r: String)
    ensures
        r@ == spec_soc_code(buffer@) + " ("@ + (match spec_soc_name(spec_soc_code(buffer@)) {
            Some(n) => n,
            None => "Unknown"@,
        }) + ")"@,
{
    let code = extract_soc_code(buffer);
    let mut out = code.clone();
    out.append(" (");
    match soc_marketing_name(code.as_str()) {
        Some(name) => {
            out.append(name.as_str());
        },
        None => {
            out.append("Unknown");
        },
    }
    out.append(")");
    out
}

/// Whether a DER byte string is a self-signed CA certificate: it parses
/// as X.509, its basic constraints say CA, and issuer equals subject.
/// The answer depends on the bytes alone.
pub uninterp spec fn spec_is_root_ca(der: Seq<u8>) -> bool;

/// Relies on `x509_parser::parse_x509_certificate`,
/// `TbsCertificate::basic_constraints`, `issuer` and `subject`: whether
/// the bytes parse as an X.509 certificate whose basic constraints say
/// CA and whose issuer equals its subject.
#[verifier::external_body]
fn is_root_ca_der(der: &[u8]) -> (r: bool)
    ensures
        r == spec_is_root_ca(der@),
{
    match x509_parser::parse_x509_certificate(der) {
        Ok((_, cert)) => {
            let is_ca = match cert.basic_constraints() {
                Ok(Some(ext)) => ext.value.ca,
                _ => false,
            };
            is_ca && cert.issuer() == cert.subject()
        },
        Err(_) => false,
    }
}

/// The SHA-384 digest of a byte string; it depends on the bytes alone.
pub uninterp spec fn spec_sha384(data: Seq<u8>) -> Seq<u8>;

/// Relies on `ring::digest::digest` with `SHA384`: the digest depends on
/// the data alone and is 48 bytes long.
#[verifier::external_body]
fn sha384(data: &[u8]) -> (r: Vec<u8>)
    ensures
        r@ == spec_sha384(data@),
        r@.len() == 48,
{
    let digest = ring::digest::digest(&ring::digest::SHA384, data);
    digest.as_ref().to_vec()
}

/// The lower-case hex SHA-384 digest of a byte string: 96 digits.
pub fn sha384_hex(data: &[u8]) -> (r: String)
    ensures
        r@ == spec_hex_of_bytes(spec_sha384(data@)),
        r@.len() == 96,
{
    let digest = sha384(data);
    hex_of_bytes(digest.as_slice())
}

/// The digests the certificate scan yields, in scan order and with
/// duplicates still present: at each `30 82 ?? ?? 30 82` position the
/// candidate DER slice runs for its announced length (clipped to the
/// buffer, which also ends the scan), and contributes its digest exactly
/// when it checks out as a self-signed CA.
pub open spec fn spec_scan_digests(b: Seq<u8>, i: int) -> Seq<Seq<char>>
    decreases b.len() - i,
    when 0 <= i <= b.len()
    via spec_scan_digests_dec
{
    if i + 6 <= b.len() {
        if b[i] == 0x30 && b[i + 1] == 0x82 && b[i + 4] == 0x30 && b[i + 5] == 0x82 {
            let total = 4 + (b[i + 2] as int) * 256 + (b[i + 3] as int);
            let end = if i + total <= b.len() {
                i + total
            } else {
                b.len() as int
            };
            let der = b.subrange(i, end);
            let head = if spec_is_root_ca(der) {
                seq![spec_hex_of_bytes(spec_sha384(der))]
            } else {
                Seq::<Seq<char>>::empty()
            };
            if i + total <= b.len() {
                head + spec_scan_digests(b, i + total)
            } else {
                head
            }
        } else {
            spec_scan_digests(b, i + 1)
        }
    } else {
        Seq::empty()
    }
}

#[via_fn]
proof fn spec_scan_digests_dec(b: Seq<u8>, i: int) {
}

/// A digest list with later duplicates dropped: each element is kept
/// exactly when it does not already stand earlier in the list.
pub open spec fn spec_dedup(s: Seq<Seq<char>>) -> Seq<Seq<char>>
    decreases s.len(),
{
    if s.len() == 0 {
        Seq::empty()
    } else if s.drop_last().contains(s.last()) {
        spec_dedup(s.drop_last())
    } else {
        spec_dedup(s.drop_last()).push(s.last())
    }
}

/// Dropping duplicates keeps exactly the values of the list.
proof fn lemma_dedup_contains(s: Seq<Seq<char>>, x: Seq<char>)
    ensures
        spec_dedup(s).contains(x) <==> s.contains(x),
    decreases s.len(),
{
    if s.len() > 0 {
        let d = s.drop_last();
        let l = s.last();
        lemma_dedup_contains(d, x);
        assert(s.contains(x) <==> (d.contains(x) || x == l)) by {
            if s.contains(x) {
                let w = choose|w: int| 0 <= w < s.len() && s[w] == x;
                if w < s.len() - 1 {
                    assert(d[w] == x);
                    assert(d.contains(x));
                }
            }
            if d.contains(x) {
                let w = choose|w: int| 0 <= w < d.len() && d[w] == x;
                assert(s[w] == x);
                assert(s.contains(x));
            }
            if x == l {
                assert(s[s.len() - 1] == x);
                assert(s.contains(x));
            }
        }
        if !d.contains(l) {
            let dd = spec_dedup(d);
            assert(dd.push(l).contains(x) <==> (dd.contains(x) || x == l)) by {
                if dd.push(l).contains(x) {
                    let w = choose|w: int| 0 <= w < dd.push(l).len() && dd.push(l)[w] == x;
                    if w < dd.len() {
                        assert(dd[w] == x);
                        assert(dd.contains(x));
                    }
                }
                if dd.contains(x) {
                    let w = choose|w: int| 0 <= w < dd.len() && dd[w] == x;
                    assert(dd.push(l)[w] == x);
                    assert(dd.push(l).contains(x));
                }
                if x == l {
                    assert(dd.push(l)[dd.len() as int] == x);
                    assert(dd.push(l).contains(x));
                }
            }
        }
    }
}

/// The view of a digest vector.
pub open spec fn spec_digests_view(v: Seq<String>) -> Seq<Seq<char>> {
    Seq::new(v.len(), |i: int| v[i]@)
}

/// Collect the hex SHA-384 digests of every self-signed CA certificate
/// found in a programmer blob: scan for the DER pattern
/// `30 82 ?? ?? 30 82`, take the candidate's announced length (clipped to
/// the buffer), and keep the digest when the candidate checks out as a
/// self-signed CA. Digests come in scan order with duplicates dropped;
/// each is exactly 96 hex digits.
pub fn parser_key_hash(buffer: &[u8]) -> (r: Vec<String>)
    ensures
        spec_digests_view(r@) == spec_dedup(spec_scan_digests(buffer@, 0)),
        forall|i: int| 0 <= i < r@.len() ==> (#[trigger] r@[i])@.len() == 96,
        forall|i: int, j: int| 0 <= i < j < r@.len() ==> r@[i]@ != r@[j]@,
{
    let buf_n: usize = buffer.len();
    let mut matches: Vec<String> = Vec::new();
    let ghost full = spec_scan_digests(buffer@, 0);
    let ghost mut raw: Seq<Seq<char>> = Seq::empty();
    let mut i: usize = 0;
    proof {
        assert(raw + spec_scan_digests(buffer@, 0) =~= spec_scan_digests(buffer@, 0));
        assert(spec_dedup(raw) =~= Seq::<Seq<char>>::empty());
        assert(spec_digests_view(matches@) =~= spec_dedup(raw));
    }
    while i < buf_n && buf_n - i >= 6
        invariant
            buf_n == buffer@.len(),
            i <= buf_n,
            full == spec_scan_digests(buffer@, 0),
            full == raw + spec_scan_digests(buffer@, i as int),
            spec_digests_view(matches@) == spec_dedup(raw),
            forall|m: int| 0 <= m < matches@.len() ==> (#[trigger] matches@[m])@.len() == 96,
            forall|m: int, n: int| 0 <= m < n < matches@.len() ==> matches@[m]@ != matches@[n]@,
        decreases buf_n - i,
    {
        if buffer[i] == 0x30 && buffer[i + 1] == 0x82 && buffer[i + 4] == 0x30 && buffer[i + 5]
            == 0x82 {
            let len_high: usize = buffer[i + 2] as usize;
            let len_low: usize = buffer[i + 3] as usize;
            let total: usize = 4 + len_high * 256 + len_low;
            let fits = total <= buf_n - i;
            let end: usize = if fits {
                i + total
            } else {
                buf_n
            };
            let mut der: Vec<u8> = Vec::new();
            let mut m: usize = i;
            while m < end
                invariant
                    i <= m <= end <= buffer@.len(),
                    der@ == buffer@.subrange(i as int, m as int),
                decreases end - m,
            {
                der.push(buffer[m]);
                m = m + 1;
                proof {
                    assert(der@ =~= buffer@.subrange(i as int, m as int));
                }
            }
            let ghost head: Seq<Seq<char>> = if spec_is_root_ca(der@) {
                seq![spec_hex_of_bytes(spec_sha384(der@))]
            } else {
                Seq::<Seq<char>>::empty()
            };
            if is_root_ca_der(der.as_slice()) {
                let digest = sha384_hex(der.as_slice());
                let mut seen = false;
                let mut k: usize = 0;
                while k < matches.len()
                    invariant
                        k <= matches@.len(),
                        seen <==> (exists|w: int|
                            0 <= w < k && (#[trigger] matches@[w])@ == digest@),
                    decreases matches@.len() - k,
                {
                    if str_eq(matches[k].as_str(), digest.as_str()) {
                        seen = true;
                    }
                    k = k + 1;
                }
                proof {
                    lemma_dedup_contains(raw, digest@);
                    if seen {
                        let w = choose|w: int|
                            0 <= w < matches@.len() && (#[trigger] matches@[w])@ == digest@;
                        assert(spec_digests_view(matches@)[w] == digest@);
                        assert(spec_digests_view(matches@).contains(digest@));
                    }
                    if spec_digests_view(matches@).contains(digest@) {
                        let w = choose|w: int|
                            0 <= w < spec_digests_view(matches@).len()
                                && spec_digests_view(matches@)[w] == digest@;
                        assert(matches@[w]@ == digest@);
                    }
                    assert(seen <==> spec_digests_view(matches@).contains(digest@));
                    assert(seen <==> raw.contains(digest@));
                    assert(raw.push(digest@).drop_last() =~= raw);
                    assert(raw.push(digest@).last() == digest@);
                }
                let ghost old_matches = matches@;
                let ghost dg = digest@;
                if !seen {
                    matches.push(digest);
                    proof {
                        assert(spec_digests_view(matches@) =~= spec_digests_view(
                            old_matches,
                        ).push(dg));
                        assert(spec_digests_view(matches@) =~= spec_dedup(raw.push(dg)));
                    }
                } else {
                    proof {
                        assert(spec_digests_view(matches@) =~= spec_dedup(raw.push(dg)));
                    }
                }
                proof {
                    raw = raw.push(dg);
                }
            }
            if fits {
                proof {
                    assert(spec_scan_digests(buffer@, i as int) =~= head + spec_scan_digests(
                        buffer@,
                        i + total,
                    ));
                    assert(full =~= raw + spec_scan_digests(buffer@, i + total));
                }
                i = i + total;
            } else {
                proof {
                    assert(spec_scan_digests(buffer@, i as int) =~= head);
                    assert(full =~= raw + spec_scan_digests(buffer@, buf_n as int));
                }
                i = buf_n;
            }
        } else {
            i = i + 1;
        }
    }
    proof {
        assert(spec_scan_digests(buffer@, i as int) =~= Seq::<Seq<char>>::empty());
        assert(full =~= raw);
        assert(spec_digests_view(matches@) =~= spec_dedup(full));
    }
    matches
}

} // verus!
