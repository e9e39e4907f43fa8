//! Decoding `$STANDARD_INFORMATION` and `$FILE_NAME` attribute values. Timestamps stay raw
//! FILETIME values (100 ns intervals since 1601-01-01 UTC).
use vstd::prelude::*;
use crate::bytes::{le16, le32, le64, read_u16_le, read_u32_le, read_u64_le};

verus! {

#[derive(Debug, Clone, Copy, PartialEq, Eq, Structural)]
pub struct StandardInformation {
    pub creation_time: u64,
    pub modified_time: u64,
    pub mft_modified_time: u64,
    pub accessed_time: u64,
    pub file_attributes: u32,
    pub security_id: u32,
}

/// The `$STANDARD_INFORMATION` decoded from a resident value of at least 48 bytes.
pub open spec fn decode_si(s: Seq<u8>) -> Option<StandardInformation> {
    if s.len() < 48 {
        None
    } else {
        Some(
            StandardInformation {
                creation_time: le64(s, 0),
                modified_time: le64(s, 8),
                mft_modified_time: le64(s, 16),
                accessed_time: le64(s, 24),
                file_attributes: le32(s, 32),
                security_id: if s.len() >= 56 { le32(s, 52) } else { 0 },
            },
        )
    }
}

impl StandardInformation {
    pub fn parse(data: &[u8]) -> (r: Option<Self>)
        ensures
            r == decode_si(data@),
    {
        if data.len() < 48 {
            return None;
        }
        let security_id = if data.len() >= 56 { read_u32_le(data, 52) } else { 0 };
        Some(
            StandardInformation {
                creation_time: read_u64_le(data, 0),
                modified_time: read_u64_le(data, 8),
                mft_modified_time: read_u64_le(data, 16),
                accessed_time: read_u64_le(data, 24),
                file_attributes: read_u32_le(data, 32),
                security_id,
            },
        )
    }
}

/// What `String::from_utf16_lossy` makes of a sequence of UTF-16 code units.
pub uninterp spec fn utf16_lossy(units: Seq<u16>) -> Seq<char>;

/// Relies on `String::from_utf16_lossy`: decodes UTF-16, replacing unpaired surrogates by
/// U+FFFD; the result depends on the code units alone, and no units give an empty string.
#[verifier::external_body]
fn decode_utf16_lossy(units: &Vec<u16>) -> (r: String)
    ensures
        r@ == utf16_lossy(units@),
        units@.len() == 0 ==> r@.len() == 0,
{
    String::from_utf16_lossy(units)
}

/// The `n` little-endian UTF-16 code units stored from `off`.
pub open spec fn utf16_units(s: Seq<u8>, off: int, n: nat) -> Seq<u16> {
    Seq::new(n, |i: int| le16(s, off + 2 * i))
}

/// Reads `n` little-endian UTF-16 code units from `off`.
pub fn read_utf16_units(s: &[u8], off: usize, n: usize) -> (r: Vec<u16>)
    requires
        off + 2 * n <= s@.len(),
    ensures
        r@ == utf16_units(s@, off as int, n as nat),
{
    let len = s.len();
    let mut out: Vec<u16> = Vec::new();
    let mut i: usize = 0;
    while i < n
        invariant
            i <= n,
            s@.len() == len,
            off + 2 * n <= s@.len(),
            out@ =~= utf16_units(s@, off as int, i as nat),
        decreases n - i,
    {
        out.push(read_u16_le(s, off + 2 * i));
        i = i + 1;
    }
    out
}

/// Decodes the UTF-16LE name of `n` units stored at `off`.
pub fn read_utf16_name(s: &[u8], off: usize, n: usize) -> (r: String)
    requires
        off + 2 * n <= s@.len(),
    ensures
        r@ == utf16_lossy(utf16_units(s@, off as int, n as nat)),
{
    let units = read_utf16_units(s, off, n);
    decode_utf16_lossy(&units)
}

#[derive(Debug, Clone)]
pub struct FileNameAttribute {
    pub parent_directory_reference: u64,
    pub creation_time: u64,
    pub modified_time: u64,
    pub mft_modified_time: u64,
    pub accessed_time: u64,
    pub logical_size: u64,
    pub name_type: u8,
    pub name: String,
}

/// A `$FILE_NAME` value holds its fixed fields and its whole name.
pub open spec fn fn_value_complete(s: Seq<u8>) -> bool {
    s.len() >= 66 && s.len() >= 66 + 2 * s[64]
}

/// `f` is the `$FILE_NAME` decoded from value `s`.
pub open spec fn fn_decoded(s: Seq<u8>, f: FileNameAttribute) -> bool {
    &&& fn_value_complete(s)
    &&& f.parent_directory_reference == le64(s, 0)
    &&& f.creation_time == le64(s, 8)
    &&& f.modified_time == le64(s, 16)
    &&& f.mft_modified_time == le64(s, 24)
    &&& f.accessed_time == le64(s, 32)
    &&& f.logical_size == le64(s, 48)
    &&& f.name_type == s[65]
    &&& f.name@ == utf16_lossy(utf16_units(s, 66, s[64] as nat))
}

impl FileNameAttribute {
    /// Decodes a `$FILE_NAME` value; `None` when it is shorter than its fixed fields and name.
    pub fn parse(data: &[u8]) -> (r: Option<Self>)
        ensures
            r is None <==> !fn_value_complete(data@),
            r matches Some(f) ==> fn_decoded(data@, f),
    {
        if data.len() < 66 {
            return None;
        }
        let name_length = data[64] as usize;
        if data.len() - 66 < name_length * 2 {
            return None;
        }
        let name = read_utf16_name(data, 66, name_length);
        Some(
            FileNameAttribute {
                parent_directory_reference: read_u64_le(data, 0),
                creation_time: read_u64_le(data, 8),
                modified_time: read_u64_le(data, 16),
                mft_modified_time: read_u64_le(data, 24),
                accessed_time: read_u64_le(data, 32),
                logical_size: read_u64_le(data, 48),
                name_type: data[65],
                name,
            },
        )
    }

    /// The name is a Win32 (1) or Win32+DOS (3) name, preferred over the others.
    pub open spec fn spec_is_preferred(&self) -> bool {
        self.name_type == 1 || self.name_type == 3
    }

    pub fn is_preferred(&self) -> (r: bool)
        ensures
            r == self.spec_is_preferred(),
    {
        self.name_type == 1 || self.name_type == 3
    }
}

} // verus!
