//! The two passes of the parser over each record: building the path table, then emitting
//! one enriched entry per base record.
use vstd::prelude::*;
use vstd::string::StringExecFns;
use crate::attrs::{ref_entry, ref_seq, reference_entry, reference_sequence};
use crate::attributes::{FileNameAttribute, StandardInformation};
use crate::entry::{analyze_record, any_buffer, buffers_data_size, buffers_si, buffer_has_ads, buffer_has_fn, buffer_has_preferred_name, buffer_has_si_value, buffer_has_name, buffer_has_si};
use crate::fixup::{FixupResult, apply_fixups, fixup_spec};
use crate::gather::{base_has_complex_list, fetched_extent, gather_record_buffers};
use crate::models::MftEntry;
use crate::path::{PathBuilder, PathNode, full_path_spec};
use crate::record::{MftRecordHeader, RecordSignature, decode_header};
use crate::rules::{extension_of, extension_spec};
use crate::timestamp::{TimestampData, before_birth_spec, copied_spec, timestomped_spec, usec_zeros_spec};

verus! {

/// The record is one that the parser emits: its header decodes (signature `"FILE"` or
/// `"BAAD"`), it is not an extent, and its fixups do not fail.
pub open spec fn parsed_base_record(raw: Seq<u8>, bytes_per_sector: u16) -> bool {
    match decode_header(raw) {
        Some(h) => h.base_record_reference == 0 && fixup_spec(
            raw,
            h.update_sequence_offset as nat,
            h.update_sequence_size as nat,
            bytes_per_sector as nat,
        ).1 != FixupResult::Failed,
        None => false,
    }
}

/// The tag (first USA slot) of a record, when the USA offset lies inside it.
pub fn update_sequence_number(record: &[u8], header: &MftRecordHeader) -> (r: Option<u16>)
    ensures
        r is Some <==> header.update_sequence_offset + 2 <= record@.len(),
        r matches Some(v) ==> v == crate::bytes::le16(record@, header.update_sequence_offset as int),
{
    let off = header.update_sequence_offset as usize;
    if off + 2 <= record.len() {
        Some(crate::bytes::read_u16_le(record, off))
    } else {
        None
    }
}

/// The record is one that pass 1 reads: it decodes with signature `"FILE"`, it is not an
/// extent, and its fixups do not fail.
pub open spec fn pass1_record(raw: Seq<u8>, bytes_per_sector: u16) -> bool {
    match decode_header(raw) {
        Some(h) => h.signature == RecordSignature::File && h.base_record_reference == 0 && fixup_spec(
            raw,
            h.update_sequence_offset as nat,
            h.update_sequence_size as nat,
            bytes_per_sector as nat,
        ).1 != FixupResult::Failed,
        None => false,
    }
}

/// The record with its fixups applied.
pub open spec fn fixed_record(raw: Seq<u8>, bytes_per_sector: u16) -> Seq<u8> {
    let h = decode_header(raw)->Some_0;
    fixup_spec(raw, h.update_sequence_offset as nat, h.update_sequence_size as nat, bytes_per_sector as nat).0
}

/// The volume birth after folding in creation time `c`: the earlier of the two.
pub open spec fn fold_birth(old: Option<u64>, c: u64) -> Option<u64> {
    match old {
        Some(v) => Some(if c < v { c } else { v }),
        None => Some(c),
    }
}

/// Pass 1 over one record: records its preferred name and parent in the path table and,
/// for entries 0 to 11, folds its creation time into the volume's birth time.
pub fn record_pass1<F: Fn(u64) -> Option<Vec<u8>>>(
    fetch: &F,
    paths: &mut PathBuilder,
    volume_birth: &mut Option<u64>,
    entry_num: u64,
    record: Vec<u8>,
    record_size: usize,
    total_records: u64,
    bytes_per_sector: u16,
)
    requires
        forall|e: u64| fetch.requires((e,)),
    ensures
        final(paths).view() == old(paths).view() || exists|n: PathNode|
            final(paths).view() == old(paths).view().insert(entry_num, n),
        !pass1_record(record@, bytes_per_sector) ==> final(paths).view() == old(paths).view()
            && *final(volume_birth) == *old(volume_birth),
        pass1_record(record@, bytes_per_sector) && buffer_has_name(fixed_record(record@, bytes_per_sector), record_size as nat)
            ==> final(paths).view().contains_key(entry_num) && final(paths).view()[entry_num].self_seq
            == decode_header(record@)->Some_0.sequence_number,
        pass1_record(record@, bytes_per_sector) ==> exists|bufs: Seq<Vec<u8>>|
            {
                &&& bufs.len() >= 1
                &&& bufs[0]@ == fixed_record(record@, bytes_per_sector)
                &&& forall|k: int|
                    1 <= k < bufs.len() ==> fetched_extent(
                        fetch,
                        fixed_record(record@, bytes_per_sector),
                        record_size as nat,
                        entry_num,
                        total_records,
                        bytes_per_sector,
                        #[trigger] bufs[k]@,
                    )
                &&& (!any_buffer(bufs, bufs.len() as int, |s: Seq<u8>| buffer_has_name(s, record_size as nat))
                    ==> final(paths).view() == old(paths).view())
                &&& (any_buffer(bufs, bufs.len() as int, |s: Seq<u8>| buffer_has_name(s, record_size as nat))
                    ==> exists|b: int, f: FileNameAttribute|
                    0 <= b < bufs.len() && #[trigger] buffer_has_fn(bufs[b]@, record_size as nat, f)
                        && final(paths).view() == old(paths).view().insert(
                        entry_num,
                        PathNode {
                            parent: ref_entry(f.parent_directory_reference),
                            parent_seq: ref_seq(f.parent_directory_reference),
                            self_seq: decode_header(record@)->Some_0.sequence_number,
                            name: f.name,
                        },
                    ) && (any_buffer(
                        bufs,
                        bufs.len() as int,
                        |s: Seq<u8>| buffer_has_preferred_name(s, record_size as nat),
                    ) ==> f.spec_is_preferred()))
            },
        entry_num > 11 ==> *final(volume_birth) == *old(volume_birth),
        *final(volume_birth) == *old(volume_birth) || exists|x: StandardInformation|
            *final(volume_birth) == fold_birth(*old(volume_birth), x.creation_time),
        entry_num <= 11 && pass1_record(record@, bytes_per_sector) && buffer_has_si(
            fixed_record(record@, bytes_per_sector),
            record_size as nat,
        ) ==> exists|x: StandardInformation| *final(volume_birth) == fold_birth(*old(volume_birth), x.creation_time),
        match (*old(volume_birth), *final(volume_birth)) {
            (Some(a), Some(b)) => b <= a,
            (Some(_), None) => false,
            _ => true,
        },
{
    let ghost raw = record@;
    let ghost vb0 = *volume_birth;
    let mut record = record;
    let header = match MftRecordHeader::parse(record.as_slice()) {
        Some(h) => h,
        None => {
            return;
        },
    };
    if header.signature != RecordSignature::File || header.base_record_reference != 0 {
        return;
    }
    if apply_fixups(&mut record, &header, bytes_per_sector) == FixupResult::Failed {
        return;
    }
    let (buffers, _) = gather_record_buffers(fetch, entry_num, record, record_size, total_records, bytes_per_sector);
    let facts = analyze_record(&buffers, record_size, false);
    proof {
        let rs = record_size as nat;
        let p_name = |s: Seq<u8>| buffer_has_name(s, rs);
        let p_si = |s: Seq<u8>| buffer_has_si(s, rs);
        assert(buffers@[0]@ == fixed_record(raw, bytes_per_sector));
        if buffer_has_name(buffers@[0]@, rs) {
            assert(p_name(buffers@[0]@));
            assert(any_buffer(buffers@, buffers@.len() as int, p_name));
        }
        if buffer_has_si(buffers@[0]@, rs) {
            assert(p_si(buffers@[0]@));
            assert(any_buffer(buffers@, buffers@.len() as int, p_si));
        }
    }
    if entry_num <= 11 {
        if let Some(si) = facts.si {
            let c = si.creation_time;
            *volume_birth = match *volume_birth {
                Some(v) => Some(if c < v { c } else { v }),
                None => Some(c),
            };
            assert(*volume_birth == fold_birth(vb0, si.creation_time));
        }
    }
    if let Some(f) = facts.file_name {
        let parent = reference_entry(f.parent_directory_reference);
        let parent_seq = reference_sequence(f.parent_directory_reference);
        paths.add_entry(entry_num, header.sequence_number, parent, parent_seq, f.name);
    }
}

/// `\`-joined path of a file: the drive prefix, then the parent path unless it is the bare
/// root `\`, then `\` and the file name.
pub open spec fn compose_path(prefix: Seq<char>, parent: Seq<char>, name: Seq<char>) -> Seq<char> {
    if parent == "\\"@ {
        prefix + "\\"@ + name
    } else {
        prefix + parent + "\\"@ + name
    }
}

pub fn compose_full_path(prefix: &str, parent: &String, name: &String) -> (r: String)
    ensures
        r@ == compose_path(prefix@, parent@, name@),
{
    let root = String::from_str("\\");
    let mut out = String::from_str(prefix);
    if *parent != root {
        out.append(parent.as_str());
    }
    out.append("\\");
    out.append(name.as_str());
    out
}

/// The eight timestamps of an entry, when it has both a `$STANDARD_INFORMATION` and a
/// `$FILE_NAME`.
pub open spec fn entry_times(e: MftEntry) -> Option<TimestampData> {
    match (
        e.created0x10,
        e.last_modified0x10,
        e.last_record_change0x10,
        e.last_access0x10,
        e.created0x30,
        e.last_modified0x30,
        e.last_record_change0x30,
        e.last_access0x30,
    ) {
        (Some(a), Some(b), Some(c), Some(d), Some(f), Some(g), Some(h), Some(i)) => Some(
            TimestampData { si_c: a, si_m: b, si_e: c, si_a: d, fn_c: f, fn_m: g, fn_e: h, fn_a: i },
        ),
        _ => None,
    }
}

/// Pass 2 over one record: the enriched entry of a base record, or `None` for a record
/// that the parser skips (undecodable, an extent, or failed fixups). Records marked `"BAAD"`
/// are emitted with that signature.
/// `fits_rules` is left for the caller, which holds the rules.
pub fn record_pass2<F: Fn(u64) -> Option<Vec<u8>>>(
    fetch: &F,
    paths: &PathBuilder,
    volume_birth: Option<u64>,
    entry_num: u64,
    record: Vec<u8>,
    record_size: usize,
    total_records: u64,
    bytes_per_sector: u16,
    data_flag: bool,
    drive_prefix: &str,
    source_file: &String,
) -> (r: Option<MftEntry>)
    requires
        forall|e: u64| fetch.requires((e,)),
    ensures
        r is Some <==> parsed_base_record(record@, bytes_per_sector),
        r matches Some(e) ==> {
            let h = decode_header(record@)->Some_0;
            let f = fixup_spec(record@, h.update_sequence_offset as nat, h.update_sequence_size as nat, bytes_per_sector as nat);
            &&& e.entry_number == entry_num
            &&& (h.signature == RecordSignature::File ==> e.signature@ == "FILE"@)
            &&& (h.signature == RecordSignature::Baad ==> e.signature@ == "BAAD"@)
            &&& e.sequence_number == h.sequence_number
            &&& e.torn_write == (f.1 == FixupResult::TornWrite)
            &&& e.parent_path@ == full_path_spec(paths.view(), e.parent_entry_number, e.parent_sequence_number)
            &&& e.full_path@ == compose_path(drive_prefix@, e.parent_path@, e.file_name@)
            &&& !data_flag ==> e.content_data is None
            &&& e.complex_extents == base_has_complex_list(fixed_record(record@, bytes_per_sector), record_size as nat)
            &&& exists|bufs: Seq<Vec<u8>>|
                {
                    &&& bufs.len() >= 1
                    &&& bufs[0]@ == fixed_record(record@, bytes_per_sector)
                    &&& forall|k: int|
                        1 <= k < bufs.len() ==> fetched_extent(
                            fetch,
                            fixed_record(record@, bytes_per_sector),
                            record_size as nat,
                            entry_num,
                            total_records,
                            bytes_per_sector,
                            #[trigger] bufs[k]@,
                        )
                    &&& e.has_ads == any_buffer(bufs, bufs.len() as int, |s: Seq<u8>| buffer_has_ads(s, record_size as nat))
                    &&& e.is_ads == e.has_ads
                    &&& (any_buffer(bufs, bufs.len() as int, |s: Seq<u8>| buffer_has_name(s, record_size as nat))
                        ==> exists|b2: int, f: FileNameAttribute|
                        0 <= b2 < bufs.len() && #[trigger] buffer_has_fn(bufs[b2]@, record_size as nat, f)
                            && e.file_name@ == f.name@ && e.name_type == f.name_type && (entry_times(e) matches Some(
                            t,
                        ) ==> t.fn_c == f.creation_time && t.fn_m == f.modified_time && t.fn_e == f.mft_modified_time
                            && t.fn_a == f.accessed_time))
                    &&& (entry_times(e) matches Some(t) ==> buffers_si(bufs, record_size as nat, bufs.len() as int) matches Some(
                        x,
                    ) && t.si_c == x.creation_time && t.si_m == x.modified_time && t.si_e == x.mft_modified_time
                        && t.si_a == x.accessed_time)
                    &&& (entry_times(e) matches Some(t) ==> exists|b1: int, x: StandardInformation|
                        0 <= b1 < bufs.len() && #[trigger] buffer_has_si_value(bufs[b1]@, record_size as nat, x)
                            && t.si_c == x.creation_time && t.si_m == x.modified_time && t.si_e == x.mft_modified_time
                            && t.si_a == x.accessed_time)
                    &&& ((any_buffer(bufs, bufs.len() as int, |s: Seq<u8>| buffer_has_si(s, record_size as nat))
                        && any_buffer(bufs, bufs.len() as int, |s: Seq<u8>| buffer_has_name(s, record_size as nat)))
                        ==> entry_times(e) is Some)
                    &&& (buffers_data_size(bufs, record_size as nat, bufs.len() as int) matches Some(sz) ==> e.file_size == sz)
                    &&& (e.file_name@.len() > 0 ==> any_buffer(
                        bufs,
                        bufs.len() as int,
                        |s: Seq<u8>| buffer_has_name(s, record_size as nat),
                    ))
                }
            &&& match e.extension {
                Some(x) => extension_spec(e.file_name@, e.is_directory) == Some(x@),
                None => extension_spec(e.file_name@, e.is_directory) is None,
            }
            &&& (e.created0x10 is Some <==> entry_times(e) is Some)
            &&& (e.created0x30 is Some <==> entry_times(e) is Some)
            &&& match entry_times(e) {
                Some(t) => {
                    &&& e.timestomped == (timestomped_spec(t) || before_birth_spec(t, volume_birth))
                    &&& e.copied == copied_spec(t)
                    &&& e.u_sec_zeros == usec_zeros_spec(t)
                },
                None => !e.timestomped && !e.copied && !e.u_sec_zeros,
            }
        },
{
    let original = record;
    let mut record = original.clone();
    let header = match MftRecordHeader::parse(record.as_slice()) {
        Some(h) => h,
        None => {
            return None;
        },
    };
    if header.base_record_reference != 0 {
        return None;
    }
    let signature = String::from_str(header.signature.as_str());
    let fixup = apply_fixups(&mut record, &header, bytes_per_sector);
    if fixup == FixupResult::Failed {
        return None;
    }
    let torn_write = fixup == FixupResult::TornWrite;
    let (buffers, complex_extents) = gather_record_buffers(
        fetch,
        entry_num,
        record,
        record_size,
        total_records,
        bytes_per_sector,
    );
    let facts = analyze_record(&buffers, record_size, data_flag);
    let (parent_entry, parent_seq, file_name, fn_size, name_type) = match &facts.file_name {
        Some(f) => (
            reference_entry(f.parent_directory_reference),
            reference_sequence(f.parent_directory_reference),
            f.name.clone(),
            Some(f.logical_size),
            f.name_type,
        ),
        None => (0, 0, String::new(), None, 0),
    };
    let parent_path = paths.get_parent_path(parent_entry, parent_seq);
    let full_path = compose_full_path(drive_prefix, &parent_path, &file_name);
    let is_directory = header.is_directory();
    let extension = extension_of(&file_name, is_directory);
    let mut timestomped = false;
    let mut usec_zeros = false;
    let mut copied = false;
    let mut si_times: (Option<u64>, Option<u64>, Option<u64>, Option<u64>) = (None, None, None, None);
    let mut fn_times: (Option<u64>, Option<u64>, Option<u64>, Option<u64>) = (None, None, None, None);
    if let (Some(si), Some(f)) = (&facts.si, &facts.file_name) {
        let ts = TimestampData {
            si_c: si.creation_time,
            si_m: si.modified_time,
            si_e: si.mft_modified_time,
            si_a: si.accessed_time,
            fn_c: f.creation_time,
            fn_m: f.modified_time,
            fn_e: f.mft_modified_time,
            fn_a: f.accessed_time,
        };
        timestomped = ts.is_timestomped() || ts.is_before_volume_birth(volume_birth);
        usec_zeros = ts.has_usec_zeros();
        copied = ts.is_copied();
        si_times = (Some(si.creation_time), Some(si.modified_time), Some(si.mft_modified_time), Some(si.accessed_time));
        fn_times = (Some(f.creation_time), Some(f.modified_time), Some(f.mft_modified_time), Some(f.accessed_time));
    }
    let usn = match update_sequence_number(original.as_slice(), &header) {
        Some(v) => v as u64,
        None => 0,
    };
    let file_size = match facts.data_unnamed_size {
        Some(s) => s,
        None => match fn_size {
            Some(s) => s,
            None => 0,
        },
    };
    let (security_id, si_flags) = match &facts.si {
        Some(si) => (si.security_id, si.file_attributes),
        None => (0, 0),
    };
    Some(
        MftEntry {
            entry_number: entry_num,
            sequence_number: header.sequence_number,
            parent_entry_number: parent_entry,
            parent_sequence_number: parent_seq,
            in_use: header.is_in_use(),
            is_directory,
            parent_path,
            file_name,
            extension,
            full_path,
            has_ads: facts.has_ads,
            is_ads: facts.has_ads,
            file_size,
            created0x10: si_times.0,
            created0x30: fn_times.0,
            last_modified0x10: si_times.1,
            last_modified0x30: fn_times.1,
            last_record_change0x10: si_times.2,
            last_record_change0x30: fn_times.2,
            last_access0x10: si_times.3,
            last_access0x30: fn_times.3,
            update_sequence_number: usn,
            logfile_sequence_number: header.logfile_sequence_number,
            security_id,
            si_flags,
            reference_count: header.hard_link_count,
            name_type,
            timestomped,
            fits_rules: false,
            zone_id_contents: facts.zone_id_contents,
            content_data: facts.content_data,
            u_sec_zeros: usec_zeros,
            copied,
            torn_write,
            complex_extents,
            fn_attribute_id: 0,
            other_attribute_id: 0,
            source_file: source_file.clone(),
            signature,
            base_record_reference: header.base_record_reference,
            real_size: header.real_size,
            allocated_size: header.allocated_size,
        },
    )
}

} // verus!
