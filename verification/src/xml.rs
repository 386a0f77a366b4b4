//! The XML dialect that Firehose speaks: documents with one root element,
//! attribute lists in double quotes, self-closed or text-bodied children.
//! The parser is a recursive descent over bytes; every executable function
//! returns exactly what its spec twin computes.

use vstd::prelude::*;

use vstd::string::{StrSliceExecFns, StringExecFns};

use crate::strings::{ascii_to_string, spec_chars_of_ascii, string_push};

verus! {

/// XML whitespace: space, tab, line feed, carriage return.
pub open spec fn is_ws(b: u8) -> bool {
    b == 32 || b == 9 || b == 10 || b == 13
}

/// Characters accepted in element and attribute names.
pub open spec fn is_name_char(b: u8) -> bool {
    (97 <= b <= 122) || (65 <= b <= 90) || (48 <= b <= 57) || b == 95 || b == 45 || b == 46
        || b == 58
}

/// Characters accepted inside a double-quoted attribute value: ASCII other
/// than the quote and the tag opener.
pub open spec fn is_value_char(b: u8) -> bool {
    b < 128 && b != 34 && b != 60
}

/// First position at or after `i` that does not hold whitespace.
pub open spec fn spec_skip_ws(s: Seq<u8>, i: int) -> int
    decreases s.len() - i,
    when 0 <= i <= s.len()
{
    if i < s.len() && is_ws(s[i]) {
        spec_skip_ws(s, i + 1)
    } else {
        i
    }
}

/// Skipping whitespace stays inside the input and never goes back.
pub proof fn lemma_skip_ws_bounds(s: Seq<u8>, i: int)
    requires
        0 <= i <= s.len(),
    ensures
        i <= spec_skip_ws(s, i) <= s.len(),
    decreases s.len() - i,
{
    if i < s.len() && is_ws(s[i]) {
        lemma_skip_ws_bounds(s, i + 1);
    }
}

/// First position at or after `i` that does not hold a name character.
pub open spec fn spec_scan_name(s: Seq<u8>, i: int) -> int
    decreases s.len() - i,
    when 0 <= i <= s.len()
{
    if i < s.len() && is_name_char(s[i]) {
        spec_scan_name(s, i + 1)
    } else {
        i
    }
}

/// Scanning a name stays inside the input and never goes back.
pub proof fn lemma_scan_name_bounds(s: Seq<u8>, i: int)
    requires
        0 <= i <= s.len(),
    ensures
        i <= spec_scan_name(s, i) <= s.len(),
    decreases s.len() - i,
{
    if i < s.len() && is_name_char(s[i]) {
        lemma_scan_name_bounds(s, i + 1);
    }
}

/// First position at or after `i` that does not hold a value character.
pub open spec fn spec_scan_value(s: Seq<u8>, i: int) -> int
    decreases s.len() - i,
    when 0 <= i <= s.len()
{
    if i < s.len() && is_value_char(s[i]) {
        spec_scan_value(s, i + 1)
    } else {
        i
    }
}

/// Scanning a value stays inside the input and never goes back.
pub proof fn lemma_scan_value_bounds(s: Seq<u8>, i: int)
    requires
        0 <= i <= s.len(),
    ensures
        i <= spec_scan_value(s, i) <= s.len(),
    decreases s.len() - i,
{
    if i < s.len() && is_value_char(s[i]) {
        lemma_scan_value_bounds(s, i + 1);
    }
}

/// First position at or after `i` that opens a tag.
pub open spec fn spec_scan_text(s: Seq<u8>, i: int) -> int
    decreases s.len() - i,
    when 0 <= i <= s.len()
{
    if i < s.len() && s[i] != 60 {
        spec_scan_text(s, i + 1)
    } else {
        i
    }
}

/// Scanning text stays inside the input and never goes back.
pub proof fn lemma_scan_text_bounds(s: Seq<u8>, i: int)
    requires
        0 <= i <= s.len(),
    ensures
        i <= spec_scan_text(s, i) <= s.len(),
    decreases s.len() - i,
{
    if i < s.len() && s[i] != 60 {
        lemma_scan_text_bounds(s, i + 1);
    }
}

/// Position right after the first `?>` at or after `i`, or `-1`.
pub open spec fn spec_find_decl_end(s: Seq<u8>, i: int) -> int
    decreases s.len() - i,
    when 0 <= i <= s.len()
{
    if i + 2 <= s.len() {
        if s[i] == 63 && s[i + 1] == 62 {
            i + 2
        } else {
            spec_find_decl_end(s, i + 1)
        }
    } else {
        -1
    }
}

/// The declaration end is past its search start and inside the input.
pub proof fn lemma_find_decl_end_bounds(s: Seq<u8>, i: int)
    requires
        0 <= i <= s.len(),
    ensures
        spec_find_decl_end(s, i) == -1 || i + 2 <= spec_find_decl_end(s, i) <= s.len(),
    decreases s.len() - i,
{
    if i + 2 <= s.len() && !(s[i] == 63 && s[i + 1] == 62) {
        lemma_find_decl_end_bounds(s, i + 1);
    }
}

/// One parsed attribute.
pub struct XmlAttr {
    pub name: String,
    pub value: String,
}

/// One parsed element: name and attributes.
pub struct XmlElement {
    pub name: String,
    pub attrs: Vec<XmlAttr>,
}

/// A parsed document: the root element and its child elements.
pub struct XmlDoc {
    pub root: XmlElement,
    pub children: Vec<XmlElement>,
}

/// The view of an attribute list: name and value character strings.
pub open spec fn spec_attrs_view(v: Seq<XmlAttr>) -> Seq<(Seq<char>, Seq<char>)> {
    Seq::new(v.len(), |i: int| (v[i].name@, v[i].value@))
}

/// Attribute list parsed at spec level: pairs of byte strings.
pub open spec fn spec_parse_attrs(s: Seq<u8>, i: int) -> Result<(Seq<(Seq<u8>, Seq<u8>)>, int), ()>
    decreases s.len() - i,
    when 0 <= i <= s.len()
    via spec_parse_attrs_dec
{
    let j = spec_skip_ws(s, i);
    if j < s.len() && is_name_char(s[j]) {
        let e = spec_scan_name(s, j);
        let k = spec_skip_ws(s, e);
        if k < s.len() && s[k] == 61 {
            let q = spec_skip_ws(s, k + 1);
            if q < s.len() && s[q] == 34 {
                let v = spec_scan_value(s, q + 1);
                if v < s.len() && s[v] == 34 {
                    match spec_parse_attrs(s, v + 1) {
                        Ok((rest, end)) => Ok(
                            (seq![(s.subrange(j, e), s.subrange(q + 1, v))] + rest, end),
                        ),
                        Err(()) => Err(()),
                    }
                } else {
                    Err(())
                }
            } else {
                Err(())
            }
        } else {
            Err(())
        }
    } else {
        Ok((Seq::empty(), j))
    }
}

#[via_fn]
proof fn spec_parse_attrs_dec(s: Seq<u8>, i: int) {
    lemma_skip_ws_bounds(s, i);
    let j = spec_skip_ws(s, i);
    if j < s.len() && is_name_char(s[j]) {
        lemma_scan_name_bounds(s, j);
        let e = spec_scan_name(s, j);
        lemma_skip_ws_bounds(s, e);
        let k = spec_skip_ws(s, e);
        if k < s.len() && s[k] == 61 {
            lemma_skip_ws_bounds(s, k + 1);
            let q = spec_skip_ws(s, k + 1);
            if q < s.len() && s[q] == 34 {
                lemma_scan_value_bounds(s, q + 1);
            }
        }
    }
}

/// A parsed attribute list ends inside the input, past its start.
pub proof fn lemma_parse_attrs_bounds(s: Seq<u8>, i: int)
    requires
        0 <= i <= s.len(),
    ensures
        spec_parse_attrs(s, i) matches Ok((a, end)) ==> i <= end <= s.len(),
    decreases s.len() - i,
{
    lemma_skip_ws_bounds(s, i);
    let j = spec_skip_ws(s, i);
    if j < s.len() && is_name_char(s[j]) {
        lemma_scan_name_bounds(s, j);
        let e = spec_scan_name(s, j);
        lemma_skip_ws_bounds(s, e);
        let k = spec_skip_ws(s, e);
        if k < s.len() && s[k] == 61 {
            lemma_skip_ws_bounds(s, k + 1);
            let q = spec_skip_ws(s, k + 1);
            if q < s.len() && s[q] == 34 {
                lemma_scan_value_bounds(s, q + 1);
                let v = spec_scan_value(s, q + 1);
                if v < s.len() && s[v] == 34 {
                    lemma_parse_attrs_bounds(s, v + 1);
                }
            }
        }
    }
}


/// A parsed element at spec level.
pub struct SpecXmlElem {
    pub name: Seq<u8>,
    pub attrs: Seq<(Seq<u8>, Seq<u8>)>,
}

/// A parsed document at spec level.
pub struct SpecXmlDoc {
    pub root: SpecXmlElem,
    pub children: Seq<SpecXmlElem>,
}

/// One child element parsed at spec level: self-closed, or with text-only
/// content and a matching close tag.
pub open spec fn spec_parse_child(s: Seq<u8>, i: int) -> Result<(SpecXmlElem, int), ()>
    decreases s.len() - i,
    when 0 <= i <= s.len()
    via spec_parse_child_dec
{
    if i < s.len() && s[i] == 60 && i + 1 < s.len() && is_name_char(s[i + 1]) {
        let e = spec_scan_name(s, i + 1);
        let name = s.subrange(i + 1, e);
        match spec_parse_attrs(s, e) {
            Ok((attrs, k)) => if k + 1 < s.len() && s[k] == 47 && s[k + 1] == 62 {
                Ok((SpecXmlElem { name, attrs }, k + 2))
            } else if k < s.len() && s[k] == 62 {
                let t = spec_scan_text(s, k + 1);
                if t + 1 < s.len() && s[t] == 60 && s[t + 1] == 47 {
                    let e2 = spec_scan_name(s, t + 2);
                    let k2 = spec_skip_ws(s, e2);
                    if k2 < s.len() && s[k2] == 62 && s.subrange(t + 2, e2) == name {
                        Ok((SpecXmlElem { name, attrs }, k2 + 1))
                    } else {
                        Err(())
                    }
                } else {
                    Err(())
                }
            } else {
                Err(())
            },
            Err(()) => Err(()),
        }
    } else {
        Err(())
    }
}

#[via_fn]
proof fn spec_parse_child_dec(s: Seq<u8>, i: int) {
    if i < s.len() && s[i] == 60 && i + 1 < s.len() && is_name_char(s[i + 1]) {
        lemma_scan_name_bounds(s, i + 1);
        let e = spec_scan_name(s, i + 1);
        lemma_parse_attrs_bounds(s, e);
        match spec_parse_attrs(s, e) {
            Ok((attrs, k)) => {
                if !(k + 1 < s.len() && s[k] == 47 && s[k + 1] == 62) && k < s.len() && s[k]
                    == 62 {
                    lemma_scan_text_bounds(s, k + 1);
                    let t = spec_scan_text(s, k + 1);
                    if t + 1 < s.len() && s[t] == 60 && s[t + 1] == 47 {
                        lemma_scan_name_bounds(s, t + 2);
                        let e2 = spec_scan_name(s, t + 2);
                        lemma_skip_ws_bounds(s, e2);
                    }
                }
            },
            _ => {},
        }
    }
}

/// A parsed child ends inside the input, past its start.
pub proof fn lemma_parse_child_bounds(s: Seq<u8>, i: int)
    requires
        0 <= i <= s.len(),
    ensures
        spec_parse_child(s, i) matches Ok((c, end)) ==> i < end <= s.len(),
{
    if i < s.len() && s[i] == 60 && i + 1 < s.len() && is_name_char(s[i + 1]) {
        lemma_scan_name_bounds(s, i + 1);
        let e = spec_scan_name(s, i + 1);
        lemma_parse_attrs_bounds(s, e);
        match spec_parse_attrs(s, e) {
            Ok((attrs, k)) => {
                if !(k + 1 < s.len() && s[k] == 47 && s[k + 1] == 62) && k < s.len() && s[k]
                    == 62 {
                    lemma_scan_text_bounds(s, k + 1);
                    let t = spec_scan_text(s, k + 1);
                    if t + 1 < s.len() && s[t] == 60 && s[t + 1] == 47 {
                        lemma_scan_name_bounds(s, t + 2);
                        let e2 = spec_scan_name(s, t + 2);
                        lemma_skip_ws_bounds(s, e2);
                    }
                }
            },
            _ => {},
        }
    }
}

/// The children of the root, parsed until the root's close tag comes into
/// view. Interleaved text is skipped.
pub open spec fn spec_parse_children(s: Seq<u8>, i: int) -> Result<(Seq<SpecXmlElem>, int), ()>
    decreases s.len() - i,
    when 0 <= i <= s.len()
    via spec_parse_children_dec
{
    let j = spec_scan_text(s, i);
    if j + 1 < s.len() && s[j] == 60 {
        if s[j + 1] == 47 {
            Ok((Seq::empty(), j))
        } else {
            match spec_parse_child(s, j) {
                Ok((c, k)) => match spec_parse_children(s, k) {
                    Ok((rest, end)) => Ok((seq![c] + rest, end)),
                    Err(()) => Err(()),
                },
                Err(()) => Err(()),
            }
        }
    } else {
        Err(())
    }
}

#[via_fn]
proof fn spec_parse_children_dec(s: Seq<u8>, i: int) {
    lemma_scan_text_bounds(s, i);
    let j = spec_scan_text(s, i);
    if j + 1 < s.len() && s[j] == 60 && s[j + 1] != 47 {
        lemma_parse_child_bounds(s, j);
    }
}

/// Where the root's close tag starts after its children.
pub proof fn lemma_parse_children_bounds(s: Seq<u8>, i: int)
    requires
        0 <= i <= s.len(),
    ensures
        spec_parse_children(s, i) matches Ok((c, end)) ==> i <= end <= s.len(),
    decreases s.len() - i,
{
    lemma_scan_text_bounds(s, i);
    let j = spec_scan_text(s, i);
    if j + 1 < s.len() && s[j] == 60 && s[j + 1] != 47 {
        lemma_parse_child_bounds(s, j);
        match spec_parse_child(s, j) {
            Ok((c, k)) => {
                lemma_parse_children_bounds(s, k);
            },
            _ => {},
        }
    }
}

/// A whole document: optional declaration, a root element, its children,
/// a matching close tag. Bytes after the root's close tag are ignored.
pub open spec fn spec_parse_doc(s: Seq<u8>) -> Result<SpecXmlDoc, ()> {
    let i0 = spec_skip_ws(s, 0);
    let has_decl = i0 + 1 < s.len() && s[i0] == 60 && s[i0 + 1] == 63;
    let i1 = if has_decl {
        spec_find_decl_end(s, i0 + 2)
    } else {
        i0
    };
    if i1 < 0 {
        Err(())
    } else {
        let i2 = spec_skip_ws(s, i1);
        if i2 + 1 < s.len() && s[i2] == 60 && is_name_char(s[i2 + 1]) {
            let e = spec_scan_name(s, i2 + 1);
            let name = s.subrange(i2 + 1, e);
            match spec_parse_attrs(s, e) {
                Ok((attrs, k)) => if k + 1 < s.len() && s[k] == 47 && s[k + 1] == 62 {
                    Ok(
                        SpecXmlDoc {
                            root: SpecXmlElem { name, attrs },
                            children: Seq::empty(),
                        },
                    )
                } else if k < s.len() && s[k] == 62 {
                    match spec_parse_children(s, k + 1) {
                        Ok((cs, t)) => {
                            let e2 = spec_scan_name(s, t + 2);
                            let k2 = spec_skip_ws(s, e2);
                            if k2 < s.len() && s[k2] == 62 && s.subrange(t + 2, e2) == name {
                                Ok(SpecXmlDoc { root: SpecXmlElem { name, attrs }, children: cs })
                            } else {
                                Err(())
                            }
                        },
                        Err(()) => Err(()),
                    }
                } else {
                    Err(())
                },
                Err(()) => Err(()),
            }
        } else {
            Err(())
        }
    }
}


/// Every byte a name scan walks over is a name character.
pub proof fn lemma_scan_name_chars(s: Seq<u8>, i: int)
    requires
        0 <= i <= s.len(),
    ensures
        forall|j: int| i <= j < spec_scan_name(s, i) ==> is_name_char(#[trigger] s[j]),
    decreases s.len() - i,
{
    if i < s.len() && is_name_char(s[i]) {
        lemma_scan_name_chars(s, i + 1);
        lemma_scan_name_bounds(s, i + 1);
    }
}

/// Every byte a value scan walks over is a value character.
pub proof fn lemma_scan_value_chars(s: Seq<u8>, i: int)
    requires
        0 <= i <= s.len(),
    ensures
        forall|j: int| i <= j < spec_scan_value(s, i) ==> is_value_char(#[trigger] s[j]),
    decreases s.len() - i,
{
    if i < s.len() && is_value_char(s[i]) {
        lemma_scan_value_chars(s, i + 1);
        lemma_scan_value_bounds(s, i + 1);
    }
}

/// Whether `b` is XML whitespace.
fn ws_byte(b: u8) -> (r: bool)
    ensures
        r == is_ws(b),
{
    b == 32 || b == 9 || b == 10 || b == 13
}

/// Whether `b` may stand in a name.
fn name_char_byte(b: u8) -> (r: bool)
    ensures
        r == is_name_char(b),
{
    (97 <= b && b <= 122) || (65 <= b && b <= 90) || (48 <= b && b <= 57) || b == 95 || b == 45
        || b == 46 || b == 58
}

/// Whether `b` may stand in a quoted value.
fn value_char_byte(b: u8) -> (r: bool)
    ensures
        r == is_value_char(b),
{
    b < 128 && b != 34 && b != 60
}

/// Skip whitespace from `i`.
fn skip_ws(s: &[u8], i: usize) -> (r: usize)
    requires
        i <= s@.len(),
    ensures
        r == spec_skip_ws(s@, i as int),
        i <= r <= s@.len(),
{
    let mut j: usize = i;
    while j < s.len() && ws_byte(s[j])
        invariant
            i <= j <= s@.len(),
            spec_skip_ws(s@, i as int) == spec_skip_ws(s@, j as int),
        decreases s@.len() - j,
    {
        j = j + 1;
    }
    j
}

/// Scan name characters from `i`.
fn scan_name(s: &[u8], i: usize) -> (r: usize)
    requires
        i <= s@.len(),
    ensures
        r == spec_scan_name(s@, i as int),
        i <= r <= s@.len(),
{
    let mut j: usize = i;
    while j < s.len() && name_char_byte(s[j])
        invariant
            i <= j <= s@.len(),
            spec_scan_name(s@, i as int) == spec_scan_name(s@, j as int),
        decreases s@.len() - j,
    {
        j = j + 1;
    }
    j
}

/// Scan value characters from `i`.
fn scan_value(s: &[u8], i: usize) -> (r: usize)
    requires
        i <= s@.len(),
    ensures
        r == spec_scan_value(s@, i as int),
        i <= r <= s@.len(),
{
    let mut j: usize = i;
    while j < s.len() && value_char_byte(s[j])
        invariant
            i <= j <= s@.len(),
            spec_scan_value(s@, i as int) == spec_scan_value(s@, j as int),
        decreases s@.len() - j,
    {
        j = j + 1;
    }
    j
}

/// Scan text (anything up to a tag opener) from `i`.
fn scan_text(s: &[u8], i: usize) -> (r: usize)
    requires
        i <= s@.len(),
    ensures
        r == spec_scan_text(s@, i as int),
        i <= r <= s@.len(),
{
    let mut j: usize = i;
    while j < s.len() && s[j] != 60
        invariant
            i <= j <= s@.len(),
            spec_scan_text(s@, i as int) == spec_scan_text(s@, j as int),
        decreases s@.len() - j,
    {
        j = j + 1;
    }
    j
}

/// Find the end of a declaration from `i`; `None` when there is none.
fn find_decl_end(s: &[u8], i: usize) -> (r: Option<usize>)
    requires
        i <= s@.len(),
    ensures
        match r {
            Some(e) => e == spec_find_decl_end(s@, i as int) && i <= e <= s@.len(),
            None => spec_find_decl_end(s@, i as int) == -1,
        },
{
    let mut j: usize = i;
    while j < s.len() && j + 1 < s.len()
        invariant
            i <= j <= s@.len(),
            spec_find_decl_end(s@, i as int) == spec_find_decl_end(s@, j as int),
        decreases s@.len() - j,
    {
        if s[j] == 63 && s[j + 1] == 62 {
            return Some(j + 2);
        }
        j = j + 1;
    }
    None
}

/// Turn the byte range `[from, to)` of `s` into an ASCII string.
fn range_to_string(s: &[u8], from: usize, to: usize) -> (r: Option<String>)
    requires
        from <= to <= s@.len(),
    ensures
        r is Some <==> crate::strings::bytes_all_ascii(s@.subrange(from as int, to as int)),
        r is Some ==> r->Some_0@ == spec_chars_of_ascii(s@.subrange(from as int, to as int)),
{
    let mut piece: Vec<u8> = Vec::new();
    let mut k: usize = from;
    while k < to
        invariant
            from <= k <= to <= s@.len(),
            piece@ == s@.subrange(from as int, k as int),
        decreases to - k,
    {
        piece.push(s[k]);
        k = k + 1;
        proof {
            assert(piece@ =~= s@.subrange(from as int, k as int));
        }
    }
    ascii_to_string(piece.as_slice())
}

/// Whether an executable attribute list carries the spec-level pairs.
pub open spec fn spec_attrs_match(a: Seq<XmlAttr>, sa: Seq<(Seq<u8>, Seq<u8>)>) -> bool {
    &&& a.len() == sa.len()
    &&& forall|k: int|
        0 <= k < a.len() ==> (#[trigger] a[k]).name@ == spec_chars_of_ascii(sa[k].0) && a[k].value@
            == spec_chars_of_ascii(sa[k].1)
}

/// Whether an executable element carries a spec-level element.
pub open spec fn spec_elem_matches(e: XmlElement, se: SpecXmlElem) -> bool {
    e.name@ == spec_chars_of_ascii(se.name) && spec_attrs_match(e.attrs@, se.attrs)
}

/// Parse an attribute list from `i`.
fn parse_attrs(s: &[u8], i: usize) -> (r: Option<(Vec<XmlAttr>, usize)>)
    requires
        i <= s@.len(),
    ensures
        match spec_parse_attrs(s@, i as int) {
            Ok((sa, end)) => r matches Some((a, e2)) && e2 == end && e2 <= s@.len()
                && spec_attrs_match(a@, sa),
            Err(()) => r is None,
        },
    decreases s@.len() - i,
{
    let j = skip_ws(s, i);
    if j < s.len() && name_char_byte(s[j]) {
        let e = scan_name(s, j);
        let k = skip_ws(s, e);
        if k < s.len() && s[k] == 61 {
            let q = skip_ws(s, k + 1);
            if q < s.len() && s[q] == 34 {
                let v = scan_value(s, q + 1);
                if v < s.len() && s[v] == 34 {
                    proof {
                        lemma_scan_name_chars(s@, j as int);
                        lemma_scan_value_chars(s@, (q + 1) as int);
                    }
                    let name = match range_to_string(s, j, e) {
                        Some(n) => n,
                        None => {
                            proof {
                                assert(false);
                            }
                            return None;
                        },
                    };
                    let value = match range_to_string(s, q + 1, v) {
                        Some(n) => n,
                        None => {
                            proof {
                                assert(false);
                            }
                            return None;
                        },
                    };
                    match parse_attrs(s, v + 1) {
                        Some((mut rest, end)) => {
                            rest.insert(0, XmlAttr { name, value });
                            proof {
                                let sa = spec_parse_attrs(s@, i as int)->Ok_0.0;
                                assert(spec_attrs_match(rest@, sa));
                            }
                            Some((rest, end))
                        },
                        None => None,
                    }
                } else {
                    None
                }
            } else {
                None
            }
        } else {
            None
        }
    } else {
        Some((Vec::new(), j))
    }
}


/// Compare the byte range `[from, to)` of `s` with the bytes of `t`.
fn range_eq(s: &[u8], from: usize, to: usize, t: &[u8]) -> (r: bool)
    requires
        from <= to <= s@.len(),
    ensures
        r == (s@.subrange(from as int, to as int) == t@),
{
    if to - from != t.len() {
        proof {
            assert(s@.subrange(from as int, to as int).len() == to - from);
        }
        return false;
    }
    let mut k: usize = 0;
    while k < t.len()
        invariant
            from + t@.len() <= to <= s@.len(),
            k <= t@.len(),
            forall|m: int| 0 <= m < k ==> s@[from + m] == t@[m],
        decreases t@.len() - k,
    {
        if s[from + k] != t[k] {
            proof {
                assert(s@.subrange(from as int, to as int)[k as int] == s@[from + k]);
            }
            return false;
        }
        k = k + 1;
    }
    proof {
        assert(s@.subrange(from as int, to as int) =~= t@);
    }
    true
}

/// Parse one child element from `i`.
fn parse_child(s: &[u8], i: usize) -> (r: Option<(XmlElement, usize)>)
    requires
        i <= s@.len(),
    ensures
        match spec_parse_child(s@, i as int) {
            Ok((se, end)) => r matches Some((c, e2)) && e2 == end && e2 <= s@.len()
                && spec_elem_matches(c, se),
            Err(()) => r is None,
        },
{
    if i < s.len() && s[i] == 60 && i + 1 < s.len() && name_char_byte(s[i + 1]) {
        let e = scan_name(s, i + 1);
        proof {
            lemma_scan_name_chars(s@, (i + 1) as int);
        }
        let name = match range_to_string(s, i + 1, e) {
            Some(n) => n,
            None => {
                proof {
                    assert(false);
                }
                return None;
            },
        };
        match parse_attrs(s, e) {
            Some((attrs, k)) => {
                if k < s.len() && s[k] == 47 && k + 1 < s.len() && s[k + 1] == 62 {
                    Some((XmlElement { name, attrs }, k + 2))
                } else if k < s.len() && s[k] == 62 {
                    let t = scan_text(s, k + 1);
                    if t < s.len() && s[t] == 60 && t + 1 < s.len() && s[t + 1] == 47 {
                        let e2 = scan_name(s, t + 2);
                        let k2 = skip_ws(s, e2);
                        let name_bytes = name.as_str().as_bytes();
                        proof {
                            broadcast use vstd::string::is_ascii_spec_bytes;
                            let nb = s@.subrange(i + 1, spec_scan_name(s@, i + 1));
                            assert(crate::strings::bytes_all_ascii(nb)) by {
                                assert forall|m: int| 0 <= m < nb.len() implies nb[m] < 128 by {
                                    assert(is_name_char(s@[i + 1 + m]));
                                }
                            }
                            crate::strings::lemma_ascii_chars_bytes(nb);
                            assert(vstd::utf8::is_ascii_chars(name@));
                            vstd::utf8::is_ascii_chars_encode_utf8(name@);
                            assert(name_bytes@ =~= nb);
                        }
                        if k2 < s.len() && s[k2] == 62 && range_eq(s, t + 2, e2, name_bytes) {
                            Some((XmlElement { name, attrs }, k2 + 1))
                        } else {
                            None
                        }
                    } else {
                        None
                    }
                } else {
                    None
                }
            },
            None => None,
        }
    } else {
        None
    }
}


/// Whether executable children carry the spec-level children.
pub open spec fn spec_children_match(cs: Seq<XmlElement>, scs: Seq<SpecXmlElem>) -> bool {
    &&& cs.len() == scs.len()
    &&& forall|k: int| 0 <= k < cs.len() ==> spec_elem_matches(#[trigger] cs[k], scs[k])
}

/// Parse the root's children until its close tag comes into view.
fn parse_children(s: &[u8], i: usize) -> (r: Option<(Vec<XmlElement>, usize)>)
    requires
        i <= s@.len(),
    ensures
        match spec_parse_children(s@, i as int) {
            Ok((scs, end)) => r matches Some((cs, e2)) && e2 == end && e2 <= s@.len()
                && spec_children_match(cs@, scs),
            Err(()) => r is None,
        },
    decreases s@.len() - i,
{
    let j = scan_text(s, i);
    if j < s.len() && s[j] == 60 && j + 1 < s.len() {
        if s[j + 1] == 47 {
            Some((Vec::new(), j))
        } else {
            match parse_child(s, j) {
                Some((c, k)) => {
                    proof {
                        lemma_parse_child_bounds(s@, j as int);
                    }
                    match parse_children(s, k) {
                        Some((mut rest, end)) => {
                            rest.insert(0, c);
                            proof {
                                let scs = spec_parse_children(s@, i as int)->Ok_0.0;
                                assert(spec_children_match(rest@, scs));
                            }
                            Some((rest, end))
                        },
                        None => None,
                    }
                },
                None => None,
            }
        }
    } else {
        None
    }
}

/// Parsed children stop right at the root's close tag.
pub proof fn lemma_parse_children_stop(s: Seq<u8>, i: int)
    requires
        0 <= i <= s.len(),
    ensures
        spec_parse_children(s, i) matches Ok((c, end)) ==> end + 1 < s.len() && s[end] == 60
            && s[end + 1] == 47,
    decreases s.len() - i,
{
    lemma_scan_text_bounds(s, i);
    let j = spec_scan_text(s, i);
    if j + 1 < s.len() && s[j] == 60 && s[j + 1] != 47 {
        lemma_parse_child_bounds(s, j);
        match spec_parse_child(s, j) {
            Ok((c, k)) => {
                lemma_parse_children_stop(s, k);
            },
            _ => {},
        }
    }
}

/// Whether an executable document carries a spec-level document.
pub open spec fn spec_doc_matches(d: XmlDoc, sd: SpecXmlDoc) -> bool {
    spec_elem_matches(d.root, sd.root) && spec_children_match(d.children@, sd.children)
}

/// Parse one document: optional declaration, one root element with its
/// attributes and child elements. Bytes after the root's close tag are
/// ignored.
pub fn parse_document(s: &[u8]) -> (r: Option<XmlDoc>)
    ensures
        match spec_parse_doc(s@) {
            Ok(sd) => r matches Some(d) && spec_doc_matches(d, sd),
            Err(()) => r is None,
        },
{
    let i0 = skip_ws(s, 0);
    let has_decl = i0 < s.len() && s[i0] == 60 && i0 + 1 < s.len() && s[i0 + 1] == 63;
    let i1: usize = if has_decl {
        match find_decl_end(s, i0 + 2) {
            Some(e) => e,
            None => {
                return None;
            },
        }
    } else {
        i0
    };
    proof {
        if has_decl {
            lemma_find_decl_end_bounds(s@, i0 + 2);
        }
    }
    let i2 = skip_ws(s, i1);
    if i2 < s.len() && s[i2] == 60 && i2 + 1 < s.len() && name_char_byte(s[i2 + 1]) {
        let e = scan_name(s, i2 + 1);
        proof {
            lemma_scan_name_chars(s@, (i2 + 1) as int);
        }
        let name = match range_to_string(s, i2 + 1, e) {
            Some(n) => n,
            None => {
                proof {
                    assert(false);
                }
                return None;
            },
        };
        match parse_attrs(s, e) {
            Some((attrs, k)) => {
                if k < s.len() && s[k] == 47 && k + 1 < s.len() && s[k + 1] == 62 {
                    Some(
                        XmlDoc {
                            root: XmlElement { name, attrs },
                            children: Vec::new(),
                        },
                    )
                } else if k < s.len() && s[k] == 62 {
                    match parse_children(s, k + 1) {
                        Some((cs, t)) => {
                            proof {
                                lemma_parse_children_bounds(s@, k + 1);
                                lemma_parse_children_stop(s@, k + 1);
                            }
                            let e2 = scan_name(s, t + 2);
                            let k2 = skip_ws(s, e2);
                            let name_bytes = name.as_str().as_bytes();
                            proof {
                                broadcast use vstd::string::is_ascii_spec_bytes;

                                let nb = s@.subrange(i2 + 1, spec_scan_name(s@, i2 + 1));
                                assert(crate::strings::bytes_all_ascii(nb)) by {
                                    assert forall|m: int| 0 <= m < nb.len() implies nb[m]
                                        < 128 by {
                                        assert(is_name_char(s@[i2 + 1 + m]));
                                    }
                                }
                                crate::strings::lemma_ascii_chars_bytes(nb);
                                assert(vstd::utf8::is_ascii_chars(name@));
                                vstd::utf8::is_ascii_chars_encode_utf8(name@);
                                assert(name_bytes@ =~= nb);
                            }
                            if k2 < s.len() && s[k2] == 62 && range_eq(s, t + 2, e2, name_bytes) {
                                Some(XmlDoc { root: XmlElement { name, attrs }, children: cs })
                            } else {
                                None
                            }
                        },
                        None => None,
                    }
                } else {
                    None
                }
            },
            None => None,
        }
    } else {
        None
    }
}


/// The rendering of one character in an attribute value: the five XML
/// specials become entities, everything else stands as itself.
pub open spec fn spec_escape_char(c: char) -> Seq<char> {
    if c == '&' {
        "&amp;"@
    } else if c == '<' {
        "&lt;"@
    } else if c == '>' {
        "&gt;"@
    } else if c == '"' {
        "&quot;"@
    } else if c == '\'' {
        "&apos;"@
    } else {
        seq![c]
    }
}

/// A character string with the five XML specials escaped.
pub open spec fn spec_xml_escape(s: Seq<char>) -> Seq<char>
    decreases s.len(),
{
    if s.len() == 0 {
        Seq::empty()
    } else {
        spec_escape_char(s[0]) + spec_xml_escape(s.drop_first())
    }
}

/// Extending the input by one character extends the escape by its
/// rendering.
proof fn lemma_escape_take_step(s: Seq<char>, i: int)
    requires
        0 < i <= s.len(),
    ensures
        spec_xml_escape(s.take(i)) == spec_xml_escape(s.take(i - 1)) + spec_escape_char(s[i - 1]),
    decreases i,
{
    if i == 1 {
        assert(s.take(1).drop_first() =~= Seq::<char>::empty());
        assert(s.take(0) =~= Seq::<char>::empty());
        assert(spec_xml_escape(s.take(1)) =~= spec_xml_escape(s.take(0)) + spec_escape_char(s[0]));
    } else {
        lemma_escape_take_step(s.drop_first(), i - 1);
        assert(s.take(i).drop_first() =~= s.drop_first().take(i - 1));
        assert(s.take(i - 1).drop_first() =~= s.drop_first().take(i - 2));
        assert(s.drop_first()[i - 2] == s[i - 1]);
        assert(s.take(i)[0] == s[0] && s.take(i - 1)[0] == s[0]);
        assert(spec_xml_escape(s.take(i)) =~= spec_xml_escape(s.take(i - 1)) + spec_escape_char(
            s[i - 1],
        ));
    }
}

/// Escape the five XML specials of `s`.
pub fn xml_escape(s: &str) -> (r: String)
    ensures
        r@ == spec_xml_escape(s@),
{
    let n = s.unicode_len();
    let mut out = String::new();
    let mut i: usize = 0;
    while i < n
        invariant
            n == s@.len(),
            i <= n,
            out@ == spec_xml_escape(s@.take(i as int)),
        decreases n - i,
    {
        let c = s.get_char(i);
        if c == '&' {
            out.append("&amp;");
        } else if c == '<' {
            out.append("&lt;");
        } else if c == '>' {
            out.append("&gt;");
        } else if c == '"' {
            out.append("&quot;");
        } else if c == '\'' {
            out.append("&apos;");
        } else {
            string_push(&mut out, c);
        }
        i = i + 1;
        proof {
            lemma_escape_take_step(s@, i as int);
        }
    }
    proof {
        assert(s@.take(n as int) =~= s@);
    }
    out
}

/// The view of a list of name-value `String` pairs.
pub open spec fn spec_pairs_view(v: Seq<(String, String)>) -> Seq<(Seq<char>, Seq<char>)> {
    Seq::new(v.len(), |i: int| (v[i].0@, v[i].1@))
}

/// The rendering of an attribute list: one leading space per attribute,
/// the value escaped and double-quoted.
pub open spec fn spec_render_attrs(attrs: Seq<(Seq<char>, Seq<char>)>) -> Seq<char>
    decreases attrs.len(),
{
    if attrs.len() == 0 {
        Seq::empty()
    } else {
        seq![' '] + attrs[0].0 + "=\""@ + spec_xml_escape(attrs[0].1) + "\""@ + spec_render_attrs(
            attrs.drop_first(),
        )
    }
}

/// The rendering of a self-closed tag.
pub open spec fn spec_render_tag(name: Seq<char>, attrs: Seq<(Seq<char>, Seq<char>)>) -> Seq<
    char,
> {
    seq!['<'] + name + spec_render_attrs(attrs) + "/>"@
}

/// Extending the attribute list by one pair extends the rendering.
proof fn lemma_render_attrs_take_step(attrs: Seq<(Seq<char>, Seq<char>)>, i: int)
    requires
        0 < i <= attrs.len(),
    ensures
        spec_render_attrs(attrs.take(i)) == spec_render_attrs(attrs.take(i - 1)) + (seq![' ']
            + attrs[i - 1].0 + "=\""@ + spec_xml_escape(attrs[i - 1].1) + "\""@),
    decreases i,
{
    if i == 1 {
        assert(attrs.take(1).drop_first() =~= Seq::<(Seq<char>, Seq<char>)>::empty());
        assert(attrs.take(0) =~= Seq::<(Seq<char>, Seq<char>)>::empty());
        assert(spec_render_attrs(attrs.take(1)) =~= spec_render_attrs(attrs.take(0)) + (seq![' ']
            + attrs[0].0 + "=\""@ + spec_xml_escape(attrs[0].1) + "\""@));
    } else {
        lemma_render_attrs_take_step(attrs.drop_first(), i - 1);
        assert(attrs.take(i).drop_first() =~= attrs.drop_first().take(i - 1));
        assert(attrs.take(i - 1).drop_first() =~= attrs.drop_first().take(i - 2));
        assert(attrs.drop_first()[i - 2] == attrs[i - 1]);
        assert(attrs.take(i)[0] == attrs[0] && attrs.take(i - 1)[0] == attrs[0]);
        assert(spec_render_attrs(attrs.take(i)) =~= spec_render_attrs(attrs.take(i - 1)) + (seq![
            ' ',
        ] + attrs[i - 1].0 + "=\""@ + spec_xml_escape(attrs[i - 1].1) + "\""@));
    }
}

/// Render one self-closed tag with its attributes in the given order.
pub fn render_tag(name: &str, attrs: &Vec<(String, String)>) -> (r: String)
    ensures
        r@ == spec_render_tag(name@, spec_pairs_view(attrs@)),
{
    let mut out = String::new();
    string_push(&mut out, '<');
    out.append(name);
    let mut i: usize = 0;
    while i < attrs.len()
        invariant
            i <= attrs@.len(),
            out@ == seq!['<'] + name@ + spec_render_attrs(spec_pairs_view(attrs@).take(i as int)),
        decreases attrs@.len() - i,
    {
        out.append(" ");
        out.append(attrs[i].0.as_str());
        out.append("=\"");
        let escaped = xml_escape(attrs[i].1.as_str());
        out.append(escaped.as_str());
        out.append("\"");
        i = i + 1;
        proof {
            reveal_strlit(" ");
            assert(" "@ =~= seq![' ']);
            lemma_render_attrs_take_step(spec_pairs_view(attrs@), i as int);
            assert(out@ =~= seq!['<'] + name@ + spec_render_attrs(
                spec_pairs_view(attrs@).take(i as int),
            ));
        }
    }
    out.append("/>");
    proof {
        assert(spec_pairs_view(attrs@).take(attrs@.len() as int) =~= spec_pairs_view(attrs@));
        assert(out@ =~= spec_render_tag(name@, spec_pairs_view(attrs@)));
    }
    out
}

/// The framing of one request document around a rendered tag.
pub open spec fn spec_render_doc(inner: Seq<char>) -> Seq<char> {
    "<?xml version=\"1.0\" ?>\n<data>\n"@ + inner + "\n</data>\n"@
}

/// Wrap a rendered tag into a one-request document.
pub fn render_doc(inner: &str) -> (r: String)
    ensures
        r@ == spec_render_doc(inner@),
{
    let mut out = String::new();
    out.append("<?xml version=\"1.0\" ?>\n<data>\n");
    out.append(inner);
    out.append("\n</data>\n");
    out
}

} // verus!
