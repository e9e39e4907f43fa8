//! Turning the buffers of one logical record into the enriched entry that the parser emits.
use vstd::prelude::*;
use vstd::string::StringExecFns;
use crate::attributes::{FileNameAttribute, StandardInformation, decode_si, fn_decoded, fn_value_complete, read_utf16_name, utf16_lossy, utf16_units};
use crate::attrs::{
    AttrHeader, ATTR_DATA, ATTR_FILE_NAME, ATTR_STANDARD_INFORMATION, attribute_headers, resident_value,
    resident_value_spec, used_end,
};
use crate::bytes::{le16, le32, le64, read_u16_le, read_u32_le, read_u64_le};
use crate::record::{MftRecordHeader, decode_header};
use crate::gather::record_attrs;

verus! {

/// What `String::from_utf8_lossy` makes of a byte sequence, as characters.
pub uninterp spec fn utf8_lossy(bytes: Seq<u8>) -> Seq<char>;

/// Relies on `String::from_utf8_lossy`: decodes UTF-8, replacing each invalid sequence by
/// U+FFFD; the result depends on the bytes alone, and no bytes give no characters.
#[verifier::external_body]
fn utf8_lossy_chars(data: &[u8]) -> (r: Vec<char>)
    ensures
        r@ == utf8_lossy(data@),
        data@.len() == 0 ==> r@.len() == 0,
{
    String::from_utf8_lossy(data).chars().collect()
}

/// Relies on `String`'s `FromIterator<char>`: the string of exactly these characters.
#[verifier::external_body]
pub(crate) fn string_from_chars(chars: &Vec<char>) -> (r: String)
    ensures
        r@ == chars@,
{
    chars.iter().collect()
}

/// A control character (general category Cc): U+0000..=U+001F and U+007F..=U+009F.
pub open spec fn is_control(c: char) -> bool {
    (c as u32) <= 0x1F || (0x7F <= (c as u32) && (c as u32) <= 0x9F)
}

/// A character kept in extracted text: not a control character unless a line feed, tab or
/// carriage return, and not the replacement character.
pub open spec fn keep_char(c: char) -> bool {
    (!is_control(c) || c == '\n' || c == '\t' || c == '\r') && c != '\u{FFFD}'
}

/// The printable text of a byte buffer decoded as lossy UTF-8.
pub open spec fn human_readable(data: Seq<u8>) -> Seq<char> {
    utf8_lossy(data).filter(|c: char| keep_char(c))
}

/// Decodes `data` as UTF-8 (lossily) and keeps its printable characters.
pub fn extract_human_readable(data: &[u8]) -> (r: String)
    ensures
        r@ == human_readable(data@),
{
    let chars = utf8_lossy_chars(data);
    let mut kept: Vec<char> = Vec::new();
    let mut i: usize = 0;
    while i < chars.len()
        invariant
            i <= chars@.len(),
            kept@ == chars@.subrange(0, i as int).filter(|c: char| keep_char(c)),
        decreases chars@.len() - i,
    {
        let c = chars[i];
        let code = c as u32;
        let control = code <= 0x1F || (0x7F <= code && code <= 0x9F);
        proof {
            reveal(Seq::filter);
            assert(chars@.subrange(0, i + 1).drop_last() =~= chars@.subrange(0, i as int));
            assert(chars@.subrange(0, i + 1).last() == c);
        }
        if (!control || c == '\n' || c == '\t' || c == '\r') && c != '\u{FFFD}' {
            kept.push(c);
        }
        i = i + 1;
    }
    proof {
        assert(chars@.subrange(0, chars@.len() as int) =~= chars@);
    }
    string_from_chars(&kept)
}

/// Where an attribute's UTF-16 name lies: its offset and its length in units; `None` when the
/// attribute has no name or the name does not fit inside it.
pub open spec fn attr_name_span(s: Seq<u8>, a: AttrHeader) -> Option<(nat, nat)> {
    if a.length < 12 {
        None
    } else {
        let n = s[a.offset + 9] as nat;
        let start = a.offset + le16(s, a.offset + 10);
        if n == 0 || start + 2 * n > a.offset + a.length {
            None
        } else {
            Some((start as nat, n))
        }
    }
}

/// The name of an attribute (empty when it has none or it does not fit).
pub open spec fn attr_name_spec(s: Seq<u8>, a: AttrHeader) -> Seq<char> {
    match attr_name_span(s, a) {
        Some(p) => utf16_lossy(utf16_units(s, p.0 as int, p.1)),
        None => Seq::empty(),
    }
}

fn attr_name_span_exec(buf: &[u8], a: &AttrHeader) -> (r: Option<(usize, usize)>)
    requires
        a.offset + a.length <= buf@.len(),
    ensures
        r matches Some(p) ==> attr_name_span(buf@, *a) == Some((p.0 as nat, p.1 as nat)) && p.0 + 2 * p.1 <= buf@.len(),
        r is None ==> attr_name_span(buf@, *a) is None,
{
    let blen = buf.len();
    if a.length < 12 {
        return None;
    }
    let n = buf[a.offset + 9] as usize;
    let name_off = read_u16_le(buf, a.offset + 10) as usize;
    if n == 0 || name_off > a.length || 2 * n > a.length - name_off {
        return None;
    }
    Some((a.offset + name_off, n))
}

/// Reads an attribute's name, and whether it has one.
pub fn read_attr_name(buf: &[u8], a: &AttrHeader) -> (r: (String, bool))
    requires
        a.offset + a.length <= buf@.len(),
    ensures
        r.0@ == attr_name_spec(buf@, *a),
        r.1 == (attr_name_span(buf@, *a) is Some),
{
    match attr_name_span_exec(buf, a) {
        Some((start, n)) => (read_utf16_name(buf, start, n), true),
        None => (String::new(), false),
    }
}

/// What the attributes of one logical record give to its entry.
pub struct RecordFacts {
    pub si: Option<StandardInformation>,
    pub file_name: Option<FileNameAttribute>,
    pub has_ads: bool,
    pub data_unnamed_size: Option<u64>,
    pub zone_id_contents: Option<String>,
    pub content_data: Option<String>,
}

/// The size of an unnamed non-resident `$DATA`, at offset 0x30 of its header.
fn nonresident_data_size(buf: &[u8], a: &AttrHeader) -> (r: Option<u64>)
    requires
        a.offset + a.length <= buf@.len(),
    ensures
        r == (if a.length < 0x38 { None } else { Some(le64(buf@, a.offset + 0x30)) }),
{
    let blen = buf.len();
    if a.length < 0x38 {
        None
    } else {
        Some(read_u64_le(buf, a.offset + 0x30))
    }
}

/// The attributes of a record buffer as the parser walks them (none if its header does not
/// decode).
pub open spec fn buffer_attrs(s: Seq<u8>, record_size: nat) -> Seq<AttrHeader> {
    match decode_header(s) {
        Some(h) => record_attrs(s, h, record_size),
        None => Seq::empty(),
    }
}

/// A named `$DATA` attribute (an alternate data stream).
pub open spec fn is_named_data(s: Seq<u8>, a: AttrHeader) -> bool {
    a.attr_type == 0x80 && attr_name_span(s, a) is Some
}

/// The value of a resident `$FILE_NAME` attribute that decodes.
pub open spec fn file_name_value(s: Seq<u8>, a: AttrHeader) -> Option<Seq<u8>> {
    if a.attr_type == 0x30 && !a.non_resident && a.length >= 22 {
        match resident_value_spec(s, a) {
            Some(v) => {
                let value = s.subrange(v.0 as int, (v.0 + v.1) as int);
                if fn_value_complete(value) {
                    Some(value)
                } else {
                    None
                }
            },
            None => None,
        }
    } else {
        None
    }
}

/// A resident `$FILE_NAME` that decodes and carries a Win32 or Win32+DOS name.
pub open spec fn is_preferred_name(s: Seq<u8>, a: AttrHeader) -> bool {
    file_name_value(s, a) matches Some(v) && (v[65] == 1 || v[65] == 3)
}

/// The `$STANDARD_INFORMATION` decoded from a resident attribute's value.
pub open spec fn si_value(s: Seq<u8>, a: AttrHeader) -> Option<StandardInformation> {
    if a.attr_type == 0x10 && !a.non_resident && a.length >= 22 {
        match resident_value_spec(s, a) {
            Some(v) => decode_si(s.subrange(v.0 as int, (v.0 + v.1) as int)),
            None => None,
        }
    } else {
        None
    }
}

pub open spec fn buffer_has_si(s: Seq<u8>, record_size: nat) -> bool {
    exists|k: int| 0 <= k < buffer_attrs(s, record_size).len() && #[trigger] si_value(s, buffer_attrs(s, record_size)[k]) is Some
}

pub open spec fn buffer_has_si_value(s: Seq<u8>, record_size: nat, x: StandardInformation) -> bool {
    exists|k: int|
        0 <= k < buffer_attrs(s, record_size).len() && #[trigger] si_value(s, buffer_attrs(s, record_size)[k]) == Some(x)
}

/// The size that one attribute gives for the unnamed `$DATA`: the value length of a
/// resident one, the actual size (offset 0x30) of a non-resident one.
pub open spec fn data_size_of(s: Seq<u8>, a: AttrHeader) -> Option<u64> {
    if a.attr_type != 0x80 || attr_name_span(s, a) is Some {
        None
    } else if !a.non_resident && a.length >= 22 {
        Some(le32(s, a.offset + 16) as u64)
    } else if a.non_resident && a.length >= 0x38 {
        Some(le64(s, a.offset + 0x30))
    } else {
        None
    }
}

/// The size given by the last attribute among `attrs` that gives one.
pub open spec fn attrs_data_size(s: Seq<u8>, attrs: Seq<AttrHeader>) -> Option<u64>
    decreases attrs.len(),
{
    if attrs.len() == 0 {
        None
    } else {
        match data_size_of(s, attrs.last()) {
            Some(x) => Some(x),
            None => attrs_data_size(s, attrs.drop_last()),
        }
    }
}

/// The last `$STANDARD_INFORMATION` among `attrs` that decodes.
pub open spec fn attrs_si(s: Seq<u8>, attrs: Seq<AttrHeader>) -> Option<StandardInformation>
    decreases attrs.len(),
{
    if attrs.len() == 0 {
        None
    } else {
        match si_value(s, attrs.last()) {
            Some(x) => Some(x),
            None => attrs_si(s, attrs.drop_last()),
        }
    }
}

/// The last decodable `$STANDARD_INFORMATION` among the first `upto` buffers: the newest.
pub open spec fn buffers_si(buffers: Seq<Vec<u8>>, record_size: nat, upto: int) -> Option<StandardInformation>
    decreases upto,
{
    if upto <= 0 {
        None
    } else {
        match attrs_si(buffers[upto - 1]@, buffer_attrs(buffers[upto - 1]@, record_size)) {
            Some(x) => Some(x),
            None => buffers_si(buffers, record_size, upto - 1),
        }
    }
}

/// The unnamed `$DATA` size given last among the first `upto` buffers.
pub open spec fn buffers_data_size(buffers: Seq<Vec<u8>>, record_size: nat, upto: int) -> Option<u64>
    decreases upto,
{
    if upto <= 0 {
        None
    } else {
        match attrs_data_size(buffers[upto - 1]@, buffer_attrs(buffers[upto - 1]@, record_size)) {
            Some(x) => Some(x),
            None => buffers_data_size(buffers, record_size, upto - 1),
        }
    }
}

/// `f` is decoded from the resident `$FILE_NAME` attribute `a`.
pub open spec fn fn_from(s: Seq<u8>, a: AttrHeader, f: FileNameAttribute) -> bool {
    file_name_value(s, a) matches Some(v) && fn_decoded(v, f)
}

pub open spec fn buffer_has_fn(s: Seq<u8>, record_size: nat, f: FileNameAttribute) -> bool {
    exists|k: int| 0 <= k < buffer_attrs(s, record_size).len() && #[trigger] fn_from(s, buffer_attrs(s, record_size)[k], f)
}

/// `z` is the text of attribute `a`, a resident `$DATA` stream named `Zone.Identifier`.
pub open spec fn zone_from(s: Seq<u8>, a: AttrHeader, z: String) -> bool {
    &&& a.attr_type == 0x80 && !a.non_resident && a.length >= 22 && attr_name_spec(s, a) == "Zone.Identifier"@
    &&& (resident_value_spec(s, a) matches Some(v) && z@ == human_readable(s.subrange(v.0 as int, (v.0 + v.1) as int)))
}

/// `c` is the text of attribute `a`, a resident unnamed `$DATA`.
pub open spec fn content_from(s: Seq<u8>, a: AttrHeader, c: String) -> bool {
    &&& a.attr_type == 0x80 && !a.non_resident && a.length >= 22 && attr_name_span(s, a) is None
    &&& (resident_value_spec(s, a) matches Some(v) && c@ == human_readable(s.subrange(v.0 as int, (v.0 + v.1) as int)))
}

pub open spec fn buffer_has_zone(s: Seq<u8>, record_size: nat, z: String) -> bool {
    exists|k: int| 0 <= k < buffer_attrs(s, record_size).len() && #[trigger] zone_from(s, buffer_attrs(s, record_size)[k], z)
}

pub open spec fn buffer_has_content(s: Seq<u8>, record_size: nat, c: String) -> bool {
    exists|k: int|
        0 <= k < buffer_attrs(s, record_size).len() && #[trigger] content_from(s, buffer_attrs(s, record_size)[k], c)
}

pub open spec fn buffer_has_ads(s: Seq<u8>, record_size: nat) -> bool {
    exists|k: int| 0 <= k < buffer_attrs(s, record_size).len() && is_named_data(s, #[trigger] buffer_attrs(s, record_size)[k])
}

pub open spec fn buffer_has_name(s: Seq<u8>, record_size: nat) -> bool {
    exists|k: int|
        0 <= k < buffer_attrs(s, record_size).len() && #[trigger] file_name_value(s, buffer_attrs(s, record_size)[k]) is Some
}

pub open spec fn buffer_has_preferred_name(s: Seq<u8>, record_size: nat) -> bool {
    exists|k: int|
        0 <= k < buffer_attrs(s, record_size).len() && is_preferred_name(s, #[trigger] buffer_attrs(s, record_size)[k])
}

/// Some of the first `upto` buffers satisfies `p`.
pub open spec fn any_buffer(buffers: Seq<Vec<u8>>, upto: int, p: spec_fn(Seq<u8>) -> bool) -> bool {
    exists|b: int| 0 <= b < upto && #[trigger] p(buffers[b]@)
}

/// Adds what the attributes of one record buffer give to `facts`.
#[verifier::rlimit(80)]
fn analyze_buffer(buf: &[u8], record_size: usize, data_flag: bool, facts: RecordFacts) -> (r: RecordFacts)
    ensures
        (!data_flag && facts.content_data is None) ==> r.content_data is None,
        r.has_ads == (facts.has_ads || buffer_has_ads(buf@, record_size as nat)),
        r.file_name is Some <==> (facts.file_name is Some || buffer_has_name(buf@, record_size as nat)),
        r.si is Some <==> (facts.si is Some || buffer_has_si(buf@, record_size as nat)),
        r.data_unnamed_size == match attrs_data_size(buf@, buffer_attrs(buf@, record_size as nat)) {
            Some(x) => Some(x),
            None => facts.data_unnamed_size,
        },
        r.si == match attrs_si(buf@, buffer_attrs(buf@, record_size as nat)) {
            Some(x) => Some(x),
            None => facts.si,
        },
        r.si matches Some(x) ==> (facts.si == Some(x) || buffer_has_si_value(buf@, record_size as nat, x)),
        r.file_name matches Some(f) ==> (facts.file_name == Some(f) || buffer_has_fn(buf@, record_size as nat, f)),
        r.zone_id_contents matches Some(z) ==> (facts.zone_id_contents == Some(z) || buffer_has_zone(buf@, record_size as nat, z)),
        r.content_data matches Some(c) ==> (facts.content_data == Some(c) || buffer_has_content(buf@, record_size as nat, c)),
        (buffer_has_preferred_name(buf@, record_size as nat) || (facts.file_name matches Some(f)
            && f.spec_is_preferred())) ==> (r.file_name matches Some(f) && f.spec_is_preferred()),
{
    let mut facts = facts;
    let ghost start = facts;
    let zone_name = String::from_str("Zone.Identifier");
    let h = match MftRecordHeader::parse(buf) {
        Some(h) => h,
        None => {
            return facts;
        },
    };
    let end = used_end(h.real_size, h.first_attribute_offset, record_size);
    let (attrs, _) = attribute_headers(buf, h.first_attribute_offset as usize, end);
    let mut i: usize = 0;
    let blen = buf.len();
    assert(attrs@ == buffer_attrs(buf@, record_size as nat));
    assert(attrs@.subrange(0, 0) =~= Seq::<AttrHeader>::empty());
    while i < attrs.len()
        invariant
            i <= attrs@.len(),
            buf@.len() == blen,
            attrs@ == buffer_attrs(buf@, record_size as nat),
            zone_name@ == "Zone.Identifier"@,
            (!data_flag && start.content_data is None) ==> facts.content_data is None,
            facts.has_ads == (start.has_ads || exists|k: int| 0 <= k < i && is_named_data(buf@, #[trigger] attrs@[k])),
            facts.data_unnamed_size == match attrs_data_size(buf@, attrs@.subrange(0, i as int)) {
                Some(x) => Some(x),
                None => start.data_unnamed_size,
            },
            facts.si == match attrs_si(buf@, attrs@.subrange(0, i as int)) {
                Some(x) => Some(x),
                None => start.si,
            },
            facts.file_name matches Some(f) ==> (start.file_name == Some(f) || exists|k: int|
                0 <= k < i && #[trigger] fn_from(buf@, attrs@[k], f)),
            facts.zone_id_contents matches Some(z) ==> (start.zone_id_contents == Some(z) || exists|k: int|
                0 <= k < i && #[trigger] zone_from(buf@, attrs@[k], z)),
            facts.content_data matches Some(c) ==> (start.content_data == Some(c) || exists|k: int|
                0 <= k < i && #[trigger] content_from(buf@, attrs@[k], c)),
            facts.si is Some <==> (start.si is Some || exists|k: int|
                0 <= k < i && #[trigger] si_value(buf@, attrs@[k]) is Some),
            facts.si matches Some(x) ==> (start.si == Some(x) || exists|k: int|
                0 <= k < i && #[trigger] si_value(buf@, attrs@[k]) == Some(x)),
            facts.file_name is Some <==> (start.file_name is Some || exists|k: int|
                0 <= k < i && #[trigger] file_name_value(buf@, attrs@[k]) is Some),
            ((start.file_name matches Some(f) && f.spec_is_preferred()) || exists|k: int|
                0 <= k < i && is_preferred_name(buf@, #[trigger] attrs@[k])) ==> (facts.file_name matches Some(f)
                && f.spec_is_preferred()),
            forall|k: int| 0 <= k < attrs@.len() ==> attrs@[k].offset + attrs@[k].length <= buf@.len(),
        decreases attrs@.len() - i,
    {
        let a = attrs[i];
        let (name, named) = read_attr_name(buf, &a);
        if a.attr_type == ATTR_DATA && named {
            facts.has_ads = true;
        }
        let ghost fn_before = facts.file_name;
        let ghost si_before = facts.si;
        let ghost size_before = facts.data_unnamed_size;
        proof {
            assert(attrs@.subrange(0, i + 1).drop_last() =~= attrs@.subrange(0, i as int));
            assert(attrs@.subrange(0, i + 1).last() == a);
        }
        if !a.non_resident && a.length >= 22 {
            let value_len = read_u32_le(buf, a.offset + 16);
            if let Some((start_off, len)) = resident_value(buf, &a) {
                let value = slice_of(buf, start_off, len);
                if a.attr_type == ATTR_STANDARD_INFORMATION {
                    if let Some(si) = StandardInformation::parse(value.as_slice()) {
                        facts.si = Some(si);
                    }
                } else if a.attr_type == ATTR_FILE_NAME {
                    if let Some(f) = FileNameAttribute::parse(value.as_slice()) {
                        if f.is_preferred() || facts.file_name.is_none() {
                            proof {
                                assert(fn_from(buf@, attrs@[i as int], f));
                            }
                            facts.file_name = Some(f);
                        }
                    }
                } else if a.attr_type == ATTR_DATA {
                    if !named {
                        facts.data_unnamed_size = Some(value_len as u64);
                    }
                    if name == zone_name {
                        let z = extract_human_readable(value.as_slice());
                        proof {
                            assert(zone_from(buf@, attrs@[i as int], z));
                        }
                        facts.zone_id_contents = Some(z);
                    } else if !named && data_flag {
                        let c = extract_human_readable(value.as_slice());
                        proof {
                            assert(content_from(buf@, attrs@[i as int], c));
                        }
                        facts.content_data = Some(c);
                    }
                }
            } else if a.attr_type == ATTR_DATA && !named {
                facts.data_unnamed_size = Some(value_len as u64);
            }
        } else if a.non_resident && a.attr_type == ATTR_DATA {
            if let Some(sz) = nonresident_data_size(buf, &a) {
                if !named {
                    facts.data_unnamed_size = Some(sz);
                }
            }
        }
        proof {
            assert forall|k: int| 0 <= k < i + 1 && is_named_data(buf@, #[trigger] attrs@[k]) implies (k < i || a.attr_type == 0x80 && named) by {}
            assert forall|k: int| 0 <= k < i + 1 && #[trigger] file_name_value(buf@, attrs@[k]) is Some implies (k < i || file_name_value(buf@, a) is Some) by {}
            assert forall|k: int| 0 <= k < i + 1 && #[trigger] si_value(buf@, attrs@[k]) is Some implies (k < i || si_value(buf@, a) is Some) by {}
            if si_value(buf@, a) is Some {
                assert(facts.si is Some);
            }
            if data_size_of(buf@, a) is None {
                assert(facts.data_unnamed_size == size_before);
            }
            if si_value(buf@, a) is None {
                assert(facts.si == si_before);
            }
            if si_before is Some {
                assert(facts.si is Some);
            }
            if facts.si != si_before {
                assert(facts.si == si_value(buf@, a));
                assert(attrs@[i as int] == a);
            }
            if file_name_value(buf@, a) is Some {
                assert(facts.file_name is Some);
            }
            if fn_before is Some {
                assert(facts.file_name is Some);
            }
        }
        i = i + 1;
    }
    assert(attrs@.subrange(0, attrs@.len() as int) =~= attrs@);
    facts
}

/// Walks the attributes of every buffer of a logical record and collects the newest
/// `$STANDARD_INFORMATION`, the preferred `$FILE_NAME`, the presence of named `$DATA`
/// streams, the size of the unnamed `$DATA`, the text of a resident `Zone.Identifier`
/// stream and, with `data_flag`, of the resident unnamed `$DATA`.
pub fn analyze_record(buffers: &Vec<Vec<u8>>, record_size: usize, data_flag: bool) -> (r: RecordFacts)
    ensures
        !data_flag ==> r.content_data is None,
        r.has_ads == any_buffer(buffers@, buffers@.len() as int, |s: Seq<u8>| buffer_has_ads(s, record_size as nat)),
        r.file_name is Some <==> any_buffer(
            buffers@,
            buffers@.len() as int,
            |s: Seq<u8>| buffer_has_name(s, record_size as nat),
        ),
        any_buffer(buffers@, buffers@.len() as int, |s: Seq<u8>| buffer_has_preferred_name(s, record_size as nat))
            ==> (r.file_name matches Some(f) && f.spec_is_preferred()),
        r.si is Some <==> any_buffer(buffers@, buffers@.len() as int, |s: Seq<u8>| buffer_has_si(s, record_size as nat)),
        r.data_unnamed_size == buffers_data_size(buffers@, record_size as nat, buffers@.len() as int),
        r.si == buffers_si(buffers@, record_size as nat, buffers@.len() as int),
        r.file_name matches Some(f) ==> exists|b: int|
            0 <= b < buffers@.len() && #[trigger] buffer_has_fn(buffers@[b]@, record_size as nat, f),
        r.zone_id_contents matches Some(z) ==> exists|b: int|
            0 <= b < buffers@.len() && #[trigger] buffer_has_zone(buffers@[b]@, record_size as nat, z),
        r.content_data matches Some(c) ==> exists|b: int|
            0 <= b < buffers@.len() && #[trigger] buffer_has_content(buffers@[b]@, record_size as nat, c),
        r.si matches Some(x) ==> exists|b: int|
            0 <= b < buffers@.len() && #[trigger] buffer_has_si_value(buffers@[b]@, record_size as nat, x),
{
    let ghost rs = record_size as nat;
    let ghost p_ads = |s: Seq<u8>| buffer_has_ads(s, rs);
    let ghost p_name = |s: Seq<u8>| buffer_has_name(s, rs);
    let ghost p_pref = |s: Seq<u8>| buffer_has_preferred_name(s, rs);
    let ghost p_si = |s: Seq<u8>| buffer_has_si(s, rs);
    let mut facts = RecordFacts {
        si: None,
        file_name: None,
        has_ads: false,
        data_unnamed_size: None,
        zone_id_contents: None,
        content_data: None,
    };
    let mut b: usize = 0;
    while b < buffers.len()
        invariant
            b <= buffers@.len(),
            rs == record_size as nat,
            p_ads == (|s: Seq<u8>| buffer_has_ads(s, rs)),
            p_name == (|s: Seq<u8>| buffer_has_name(s, rs)),
            p_pref == (|s: Seq<u8>| buffer_has_preferred_name(s, rs)),
            p_si == (|s: Seq<u8>| buffer_has_si(s, rs)),
            facts.si is Some <==> any_buffer(buffers@, b as int, p_si),
            facts.data_unnamed_size == buffers_data_size(buffers@, rs, b as int),
            facts.si == buffers_si(buffers@, rs, b as int),
            facts.file_name matches Some(f) ==> exists|w: int| 0 <= w < b && #[trigger] buffer_has_fn(buffers@[w]@, rs, f),
            facts.zone_id_contents matches Some(z) ==> exists|w: int| 0 <= w < b && #[trigger] buffer_has_zone(buffers@[w]@, rs, z),
            facts.content_data matches Some(c) ==> exists|w: int| 0 <= w < b && #[trigger] buffer_has_content(buffers@[w]@, rs, c),
            facts.si matches Some(x) ==> exists|w: int| 0 <= w < b && #[trigger] buffer_has_si_value(buffers@[w]@, rs, x),
            !data_flag ==> facts.content_data is None,
            facts.has_ads == any_buffer(buffers@, b as int, p_ads),
            facts.file_name is Some <==> any_buffer(buffers@, b as int, p_name),
            any_buffer(buffers@, b as int, p_pref) ==> (facts.file_name matches Some(f) && f.spec_is_preferred()),
        decreases buffers@.len() - b,
    {
        let ghost before = facts;
        facts = analyze_buffer(buffers[b].as_slice(), record_size, data_flag, facts);
        proof {
            let cur = buffers@[b as int]@;
            assert(any_buffer(buffers@, b + 1, p_ads) == (any_buffer(buffers@, b as int, p_ads) || p_ads(cur))) by {
                if any_buffer(buffers@, b + 1, p_ads) && !p_ads(cur) {
                    let w = choose|w: int| 0 <= w < b + 1 && #[trigger] p_ads(buffers@[w]@);
                    assert(w < b);
                }
            }
            assert(any_buffer(buffers@, b + 1, p_name) == (any_buffer(buffers@, b as int, p_name) || p_name(cur))) by {
                if any_buffer(buffers@, b + 1, p_name) && !p_name(cur) {
                    let w = choose|w: int| 0 <= w < b + 1 && #[trigger] p_name(buffers@[w]@);
                    assert(w < b);
                }
            }
            assert(any_buffer(buffers@, b + 1, p_si) == (any_buffer(buffers@, b as int, p_si) || p_si(cur))) by {
                if any_buffer(buffers@, b + 1, p_si) && !p_si(cur) {
                    let w = choose|w: int| 0 <= w < b + 1 && #[trigger] p_si(buffers@[w]@);
                    assert(w < b);
                }
            }
            if facts.zone_id_contents is Some {
                let z = facts.zone_id_contents->Some_0;
                if before.zone_id_contents == Some(z) {
                    let w = choose|w: int| 0 <= w < b && #[trigger] buffer_has_zone(buffers@[w]@, rs, z);
                    assert(0 <= w < b + 1);
                } else {
                    assert(buffer_has_zone(buffers@[b as int]@, rs, z));
                }
            }
            if facts.content_data is Some {
                let c = facts.content_data->Some_0;
                if before.content_data == Some(c) {
                    let w = choose|w: int| 0 <= w < b && #[trigger] buffer_has_content(buffers@[w]@, rs, c);
                    assert(0 <= w < b + 1);
                } else {
                    assert(buffer_has_content(buffers@[b as int]@, rs, c));
                }
            }
            if facts.file_name is Some {
                let f = facts.file_name->Some_0;
                if before.file_name == Some(f) {
                    let w = choose|w: int| 0 <= w < b && #[trigger] buffer_has_fn(buffers@[w]@, rs, f);
                    assert(0 <= w < b + 1);
                } else {
                    assert(buffer_has_fn(buffers@[b as int]@, rs, f));
                }
            }
            if facts.si is Some {
                let x = facts.si->Some_0;
                if before.si == Some(x) {
                    let w = choose|w: int| 0 <= w < b && #[trigger] buffer_has_si_value(buffers@[w]@, rs, x);
                    assert(0 <= w < b + 1);
                } else {
                    assert(buffer_has_si_value(buffers@[b as int]@, rs, x));
                }
            }
            assert(any_buffer(buffers@, b + 1, p_pref) == (any_buffer(buffers@, b as int, p_pref) || p_pref(cur))) by {
                if any_buffer(buffers@, b + 1, p_pref) && !p_pref(cur) {
                    let w = choose|w: int| 0 <= w < b + 1 && #[trigger] p_pref(buffers@[w]@);
                    assert(w < b);
                }
            }
        }
        b = b + 1;
    }
    facts
}

/// A copy of `len` bytes of `buf` from `start`.
pub fn slice_of(buf: &[u8], start: usize, len: usize) -> (r: Vec<u8>)
    requires
        start + len <= buf@.len(),
    ensures
        r@ == buf@.subrange(start as int, start + len),
{
    let blen = buf.len();
    let mut out: Vec<u8> = Vec::new();
    let mut i: usize = 0;
    while i < len
        invariant
            i <= len,
            buf@.len() == blen,
            start + len <= buf@.len(),
            out@ =~= buf@.subrange(start as int, start + i),
        decreases len - i,
    {
        out.push(buf[start + i]);
        i = i + 1;
    }
    out
}

} // verus!
