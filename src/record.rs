//! The fixed 48-byte header of an MFT record.
use vstd::prelude::*;
use crate::bytes::{le16, le32, le64, read_u16_le, read_u32_le, read_u64_le};

verus! {

/// The two record signatures that are recognised.
#[derive(Debug, Clone, Copy, PartialEq, Eq, Structural)]
pub enum RecordSignature {
    /// `"FILE"`: an ordinary record.
    File,
    /// `"BAAD"`: a record that NTFS itself marked as damaged.
    Baad,
}

impl RecordSignature {
    /// The signature as it is written on disk.
    pub fn as_str(&self) -> (r: &'static str)
        ensures
            *self == RecordSignature::File ==> r@ == "FILE"@,
            *self == RecordSignature::Baad ==> r@ == "BAAD"@,
    {
        match self {
            RecordSignature::File => "FILE",
            RecordSignature::Baad => "BAAD",
        }
    }
}

#[derive(Debug, Clone, Copy, PartialEq, Eq, Structural)]
pub struct MftRecordHeader {
    pub signature: RecordSignature,
    pub update_sequence_offset: u16,
    pub update_sequence_size: u16,
    pub logfile_sequence_number: u64,
    pub sequence_number: u16,
    pub hard_link_count: u16,
    pub first_attribute_offset: u16,
    /// Bit 0: in use; bit 1: directory.
    pub flags: u16,
    pub real_size: u32,
    pub allocated_size: u32,
    pub base_record_reference: u64,
}

/// Why a record header fails the strict checks of extraction.
#[derive(Debug, Clone, Copy, PartialEq, Eq, Structural)]
pub enum RecordError {
    /// The record must carry `"FILE"`.
    NotFile,
    /// `real_size` is below the 48-byte header.
    RealSizeTooSmall,
    /// The first attribute lies at or past the end of the record.
    FirstAttributeOutside,
    /// `real_size` exceeds the record size.
    RealSizeTooLarge,
    /// No room for an 8-byte attribute header before `real_size`.
    NoRoomForAttributes,
}

pub open spec fn signature_of(s: Seq<u8>) -> Option<RecordSignature> {
    if s[0] == 0x46 && s[1] == 0x49 && s[2] == 0x4C && s[3] == 0x45 {
        Some(RecordSignature::File)
    } else if s[0] == 0x42 && s[1] == 0x41 && s[2] == 0x41 && s[3] == 0x44 {
        Some(RecordSignature::Baad)
    } else {
        None
    }
}

/// The header decoded from the first 48 bytes of `s`, when its signature is recognised.
pub open spec fn decode_header(s: Seq<u8>) -> Option<MftRecordHeader> {
    if s.len() < 48 {
        None
    } else {
        match signature_of(s) {
            None => None,
            Some(sig) => Some(
                MftRecordHeader {
                    signature: sig,
                    update_sequence_offset: le16(s, 4),
                    update_sequence_size: le16(s, 6),
                    logfile_sequence_number: le64(s, 8),
                    sequence_number: le16(s, 16),
                    hard_link_count: le16(s, 18),
                    first_attribute_offset: le16(s, 20),
                    flags: le16(s, 22),
                    real_size: le32(s, 24),
                    allocated_size: le32(s, 28),
                    base_record_reference: le64(s, 32),
                },
            ),
        }
    }
}

impl MftRecordHeader {
    /// Decodes a record header; `None` for a buffer under 48 bytes or an unknown signature.
    pub fn parse(data: &[u8]) -> (r: Option<Self>)
        ensures
            r == decode_header(data@),
    {
        if data.len() < 48 {
            return None;
        }
        let signature = if data[0] == 0x46 && data[1] == 0x49 && data[2] == 0x4C && data[3] == 0x45 {
            RecordSignature::File
        } else if data[0] == 0x42 && data[1] == 0x41 && data[2] == 0x41 && data[3] == 0x44 {
            RecordSignature::Baad
        } else {
            return None;
        };
        Some(
            MftRecordHeader {
                signature,
                update_sequence_offset: read_u16_le(data, 4),
                update_sequence_size: read_u16_le(data, 6),
                logfile_sequence_number: read_u64_le(data, 8),
                sequence_number: read_u16_le(data, 16),
                hard_link_count: read_u16_le(data, 18),
                first_attribute_offset: read_u16_le(data, 20),
                flags: read_u16_le(data, 22),
                real_size: read_u32_le(data, 24),
                allocated_size: read_u32_le(data, 28),
                base_record_reference: read_u64_le(data, 32),
            },
        )
    }

    pub fn is_in_use(&self) -> (r: bool)
        ensures
            r == (self.flags & 1 != 0),
    {
        self.flags & 0x01 != 0
    }

    pub fn is_directory(&self) -> (r: bool)
        ensures
            r == (self.flags & 2 != 0),
    {
        self.flags & 0x02 != 0
    }
}

/// The strict bounds checks of a record header against the record size.
pub open spec fn record_boundaries(h: MftRecordHeader, record_size: nat) -> Result<(), RecordError> {
    if h.signature != RecordSignature::File {
        Err(RecordError::NotFile)
    } else if h.real_size < 48 {
        Err(RecordError::RealSizeTooSmall)
    } else if h.first_attribute_offset >= record_size {
        Err(RecordError::FirstAttributeOutside)
    } else if h.real_size > record_size {
        Err(RecordError::RealSizeTooLarge)
    } else if h.first_attribute_offset + 8 > h.real_size {
        Err(RecordError::NoRoomForAttributes)
    } else {
        Ok(())
    }
}

/// Checks a header read during extraction: it must be `"FILE"`, and its sizes and first
/// attribute offset must fit inside the record.
pub fn validate_record_boundaries(header: &MftRecordHeader, record_size: usize) -> (r: Result<(), RecordError>)
    ensures
        r == record_boundaries(*header, record_size as nat),
{
    if header.signature != RecordSignature::File {
        return Err(RecordError::NotFile);
    }
    if header.real_size < 48 {
        return Err(RecordError::RealSizeTooSmall);
    }
    if header.first_attribute_offset as usize >= record_size {
        return Err(RecordError::FirstAttributeOutside);
    }
    if header.real_size as u64 > record_size as u64 {
        return Err(RecordError::RealSizeTooLarge);
    }
    if header.first_attribute_offset as u64 + 8 > header.real_size as u64 {
        return Err(RecordError::NoRoomForAttributes);
    }
    Ok(())
}

} // verus!
