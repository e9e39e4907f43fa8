//! The records that the library hands to its callers: the enriched entry and the sidecar
//! metadata of an extraction.
use vstd::prelude::*;
use vstd::string::StringExecFns;
use crate::extract::MftLayout;

verus! {

/// One logical MFT entry with its forensic annotations. Timestamps are raw FILETIME values.
#[derive(Debug, Clone)]
pub struct MftEntry {
    pub entry_number: u64,
    pub sequence_number: u16,
    pub parent_entry_number: u64,
    pub parent_sequence_number: u16,
    pub in_use: bool,
    pub is_directory: bool,
    pub parent_path: String,
    pub file_name: String,
    pub extension: Option<String>,
    pub full_path: String,
    pub has_ads: bool,
    pub is_ads: bool,
    pub file_size: u64,
    pub created0x10: Option<u64>,
    pub created0x30: Option<u64>,
    pub last_modified0x10: Option<u64>,
    pub last_modified0x30: Option<u64>,
    pub last_record_change0x10: Option<u64>,
    pub last_record_change0x30: Option<u64>,
    pub last_access0x10: Option<u64>,
    pub last_access0x30: Option<u64>,
    pub update_sequence_number: u64,
    pub logfile_sequence_number: u64,
    pub security_id: u32,
    pub si_flags: u32,
    pub reference_count: u16,
    pub name_type: u8,
    pub timestomped: bool,
    pub fits_rules: bool,
    pub zone_id_contents: Option<String>,
    pub content_data: Option<String>,
    pub u_sec_zeros: bool,
    pub copied: bool,
    pub torn_write: bool,
    pub complex_extents: bool,
    pub fn_attribute_id: u16,
    pub other_attribute_id: u16,
    pub source_file: String,
    pub signature: String,
    pub base_record_reference: u64,
    pub real_size: u32,
    pub allocated_size: u32,
}

/// The volume metadata written beside an extracted `$MFT`.
#[derive(Debug, Clone)]
pub struct MftMeta {
    pub bytes_per_sector: u16,
    pub sectors_per_cluster: u8,
    pub bytes_per_cluster: u64,
    pub mft_lcn: u64,
    pub mft_mirror_lcn: u64,
    pub clusters_per_index_buffer: i8,
    pub mft_record_size: u32,
    pub volume_serial_number: u64,
    pub source: String,
}

/// Where the metadata of a raw `$MFT` file is kept: beside it, with `.meta.json` appended.
pub fn meta_path_for_mft(mft_path: &str) -> (r: String)
    ensures
        r@ == mft_path@ + ".meta.json"@,
{
    let mut p = String::from_str(mft_path);
    p.append(".meta.json");
    p
}

impl MftMeta {
    /// The metadata of an extraction from `source`.
    pub fn from_layout(layout: &MftLayout, source: String) -> (r: MftMeta)
        requires
            layout.record_size <= u32::MAX,
        ensures
            r.bytes_per_sector == layout.boot.bytes_per_sector,
            r.sectors_per_cluster == layout.boot.sectors_per_cluster,
            r.bytes_per_cluster == layout.bytes_per_cluster,
            r.mft_lcn == layout.boot.mft_lcn,
            r.mft_mirror_lcn == layout.boot.mft_mirror_lcn,
            r.clusters_per_index_buffer == layout.boot.clusters_per_index_buffer,
            r.mft_record_size == layout.record_size,
            r.volume_serial_number == layout.boot.volume_serial_number,
            r.source@ == source@,
    {
        MftMeta {
            bytes_per_sector: layout.boot.bytes_per_sector,
            sectors_per_cluster: layout.boot.sectors_per_cluster,
            bytes_per_cluster: layout.bytes_per_cluster,
            mft_lcn: layout.boot.mft_lcn,
            mft_mirror_lcn: layout.boot.mft_mirror_lcn,
            clusters_per_index_buffer: layout.boot.clusters_per_index_buffer,
            mft_record_size: layout.record_size as u32,
            volume_serial_number: layout.boot.volume_serial_number,
            source,
        }
    }
}

} // verus!
