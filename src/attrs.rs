//! Walking the attributes of an MFT record buffer with bounds checks at every step.
use vstd::prelude::*;
use crate::bytes::{le16, le32, le64, read_u16_le, read_u32_le, read_u64_le};

verus! {

/// The attribute type codes that this library reads.
pub const ATTR_STANDARD_INFORMATION: u32 = 0x10;
pub const ATTR_ATTRIBUTE_LIST: u32 = 0x20;
pub const ATTR_FILE_NAME: u32 = 0x30;
pub const ATTR_DATA: u32 = 0x80;
pub const ATTR_END: u32 = 0xFFFF_FFFF;

/// The common header of one attribute inside a record buffer.
#[derive(Debug, Clone, Copy, PartialEq, Eq, Structural)]
pub struct AttrHeader {
    pub offset: usize,
    pub length: usize,
    pub attr_type: u32,
    pub non_resident: bool,
    /// The name length in UTF-16 units.
    pub name_len: u8,
}

impl AttrHeader {
    pub open spec fn end(&self) -> int {
        self.offset + self.length
    }
}

/// The byte at `i`, or 0 past the end of `s`.
pub open spec fn byte_or_zero(s: Seq<u8>, i: int) -> u8 {
    if 0 <= i < s.len() {
        s[i]
    } else {
        0
    }
}

/// The attributes found from `off` up to `end`, and whether the walk stopped on a malformed
/// length (zero, or running past `end`) rather than on an end marker or lack of room.
pub open spec fn walk_attrs(s: Seq<u8>, off: int, end: int) -> (Seq<AttrHeader>, bool)
    decreases end - off,
{
    if off < 0 || off + 8 > end || end > s.len() {
        (Seq::empty(), false)
    } else {
        let t = le32(s, off);
        let len = le32(s, off + 4) as int;
        if t == 0 || t == 0xFFFF_FFFF {
            (Seq::empty(), false)
        } else if len == 0 || off + len > end {
            (Seq::empty(), true)
        } else {
            let h = AttrHeader {
                offset: off as usize,
                length: len as usize,
                attr_type: t,
                non_resident: byte_or_zero(s, off + 8) != 0,
                name_len: byte_or_zero(s, off + 9),
            };
            let rest = walk_attrs(s, off + len, end);
            (seq![h] + rest.0, rest.1)
        }
    }
}

fn byte_at(s: &[u8], i: usize) -> (r: u8)
    ensures
        r == byte_or_zero(s@, i as int),
{
    if i < s.len() {
        s[i]
    } else {
        0
    }
}

/// Lists the attributes of a record buffer from `first` up to `used_end`. The second result
/// is true when the walk stopped on a malformed attribute length.
pub fn attribute_headers(buf: &[u8], first: usize, used_end: usize) -> (r: (Vec<AttrHeader>, bool))
    ensures
        (r.0@, r.1) == walk_attrs(buf@, first as int, used_end as int),
        forall|k: int| 0 <= k < r.0@.len() ==> {
            &&& r.0@[k].length > 0
            &&& r.0@[k].offset + r.0@[k].length <= used_end <= buf@.len()
            &&& r.0@[k].offset + 8 <= used_end
        },
{
    let mut out: Vec<AttrHeader> = Vec::new();
    let mut off = first;
    if used_end > buf.len() {
        return (out, false);
    }
    loop
        invariant
            used_end <= buf@.len(),
            forall|k: int| 0 <= k < out@.len() ==> {
                &&& out@[k].length > 0
                &&& out@[k].offset + out@[k].length <= used_end
                &&& out@[k].offset + 8 <= used_end
            },
            walk_attrs(buf@, first as int, used_end as int) == ({
                let rest = walk_attrs(buf@, off as int, used_end as int);
                (out@ + rest.0, rest.1)
            }),
        decreases used_end - off,
    {
        if off > used_end || used_end - off < 8 {
            assert(out@ + Seq::empty() =~= out@);
            return (out, false);
        }
        let n = buf.len();
        let t = read_u32_le(buf, off);
        let len = read_u32_le(buf, off + 4) as usize;
        if t == 0 || t == ATTR_END {
            assert(out@ + Seq::empty() =~= out@);
            return (out, false);
        }
        if len == 0 || len > used_end - off {
            assert(out@ + Seq::empty() =~= out@);
            return (out, true);
        }
        let h = AttrHeader {
            offset: off,
            length: len,
            attr_type: t,
            non_resident: byte_at(buf, off + 8) != 0,
            name_len: if off + 8 < n { byte_at(buf, off + 9) } else { 0 },
        };
        let ghost prev = out@;
        out.push(h);
        proof {
            let rest = walk_attrs(buf@, (off + len) as int, used_end as int);
            assert(prev + (seq![h] + rest.0) =~= out@ + rest.0);
        }
        off = off + len;
    }
}

/// Where the attribute walk of a record stops: `real_size` capped at the record size, or the
/// record size when `real_size` lies before the first attribute.
pub open spec fn used_end_spec(real_size: nat, first_attr: nat, record_size: nat) -> nat {
    let capped = if real_size < record_size { real_size } else { record_size };
    if capped < first_attr {
        record_size
    } else {
        capped
    }
}

pub fn used_end(real_size: u32, first_attr: u16, record_size: usize) -> (r: usize)
    ensures
        r as nat == used_end_spec(real_size as nat, first_attr as nat, record_size as nat),
{
    let capped = if (real_size as u64) < (record_size as u64) { real_size as usize } else { record_size };
    if capped < first_attr as usize {
        record_size
    } else {
        capped
    }
}

/// The value of a resident attribute: its offset and length in the buffer, clipped to the
/// attribute's end; `None` when the attribute is too short to hold the value fields.
pub open spec fn resident_value_spec(s: Seq<u8>, a: AttrHeader) -> Option<(nat, nat)> {
    if a.length < 22 {
        None
    } else {
        let value_len = le32(s, a.offset + 16) as nat;
        let value_off = le16(s, a.offset + 20) as nat;
        let start = a.offset + value_off;
        let end = if start + value_len < a.end() { start + value_len } else { a.end() };
        if start > end {
            None
        } else {
            Some((start as nat, (end - start) as nat))
        }
    }
}

/// Locates the value of a resident attribute whose header lies inside `buf`.
pub fn resident_value(buf: &[u8], a: &AttrHeader) -> (r: Option<(usize, usize)>)
    requires
        a.offset + a.length <= buf@.len(),
    ensures
        r matches Some(p) ==> resident_value_spec(buf@, *a) == Some((p.0 as nat, p.1 as nat)) && p.0 + p.1
            <= a.end(),
        r is None ==> resident_value_spec(buf@, *a) is None,
{
    let n = buf.len();
    if a.length < 22 {
        return None;
    }
    let value_len = read_u32_le(buf, a.offset + 16) as usize;
    let value_off = read_u16_le(buf, a.offset + 20) as usize;
    if value_off > a.length {
        return None;
    }
    let start = a.offset + value_off;
    let attr_end = a.offset + a.length;
    let end = if value_len < attr_end && start < attr_end - value_len { start + value_len } else { attr_end };
    if start > end {
        None
    } else {
        Some((start, end - start))
    }
}

/// The fields of a non-resident attribute header that extraction reads: its starting VCN,
/// its mapping-pairs offset, and its allocated and actual sizes.
#[derive(Debug, Clone, Copy, PartialEq, Eq, Structural)]
pub struct NonResidentHeader {
    pub start_vcn: u64,
    pub runs_offset: u16,
    pub allocated_size: u64,
    pub actual_size: u64,
}

pub open spec fn non_resident_spec(s: Seq<u8>, a: AttrHeader) -> Option<NonResidentHeader> {
    if a.length < 0x38 {
        None
    } else {
        Some(
            NonResidentHeader {
                start_vcn: le64(s, a.offset + 0x10),
                runs_offset: le16(s, a.offset + 0x20),
                allocated_size: le64(s, a.offset + 0x28),
                actual_size: le64(s, a.offset + 0x30),
            },
        )
    }
}

/// Decodes the non-resident header fields of an attribute long enough to hold them.
pub fn non_resident_header(buf: &[u8], a: &AttrHeader) -> (r: Option<NonResidentHeader>)
    requires
        a.offset + a.length <= buf@.len(),
    ensures
        r == non_resident_spec(buf@, *a),
{
    let n = buf.len();
    if a.length < 0x38 {
        return None;
    }
    Some(
        NonResidentHeader {
            start_vcn: read_u64_le(buf, a.offset + 0x10),
            runs_offset: read_u16_le(buf, a.offset + 0x20),
            allocated_size: read_u64_le(buf, a.offset + 0x28),
            actual_size: read_u64_le(buf, a.offset + 0x30),
        },
    )
}

/// One entry of an `$ATTRIBUTE_LIST`.
#[derive(Debug, Clone, Copy, PartialEq, Eq, Structural)]
pub struct AttrListEntry {
    pub attr_type: u32,
    pub length: u16,
    pub name_len: u8,
    pub name_offset: u8,
    pub start_vcn: u64,
    pub base_file_reference: u64,
}

pub open spec fn attr_list_entry_spec(s: Seq<u8>, off: int) -> AttrListEntry {
    AttrListEntry {
        attr_type: le32(s, off),
        length: le16(s, off + 4),
        name_len: s[off + 6],
        name_offset: s[off + 7],
        start_vcn: le64(s, off + 8),
        base_file_reference: le64(s, off + 16),
    }
}

/// Decodes the attribute-list entry at `off`.
pub fn attr_list_entry(buf: &[u8], off: usize) -> (r: AttrListEntry)
    requires
        off + 26 <= buf@.len(),
    ensures
        r == attr_list_entry_spec(buf@, off as int),
{
    let n = buf.len();
    AttrListEntry {
        attr_type: read_u32_le(buf, off),
        length: read_u16_le(buf, off + 4),
        name_len: buf[off + 6],
        name_offset: buf[off + 7],
        start_vcn: read_u64_le(buf, off + 8),
        base_file_reference: read_u64_le(buf, off + 16),
    }
}

/// The 48-bit entry number of a file reference.
pub open spec fn ref_entry(r: u64) -> u64 {
    (r % 0x1_0000_0000_0000) as u64
}

/// The 16-bit sequence number of a file reference.
pub open spec fn ref_seq(r: u64) -> u16 {
    (r / 0x1_0000_0000_0000) as u16
}

pub fn reference_entry(r: u64) -> (e: u64)
    ensures
        e == ref_entry(r),
{
    r % 0x1_0000_0000_0000
}

pub fn reference_sequence(r: u64) -> (s: u16)
    ensures
        s == ref_seq(r),
{
    (r / 0x1_0000_0000_0000) as u16
}

} // verus!
