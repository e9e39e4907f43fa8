use mft_shadow_forge::attributes::{FileNameAttribute, StandardInformation};
use mft_shadow_forge::boot::{validate_vbr, NtfsBootSector, VbrError};
use mft_shadow_forge::entry::extract_human_readable;
use mft_shadow_forge::fixup::{apply_fixups, FixupResult};
use mft_shadow_forge::gather::{extent_references, total_records};
use mft_shadow_forge::path::PathBuilder;
use mft_shadow_forge::record::{validate_record_boundaries, MftRecordHeader, RecordError, RecordSignature};
use mft_shadow_forge::rules::{drive_prefix, extension_of, fits_rules, volume_path, Rule};
use mft_shadow_forge::runlist::{assemble_runlist, parse_data_runs, DataRun, RunlistError};
use mft_shadow_forge::timestamp::TimestampData;

fn header_bytes(sig: &[u8; 4], first_attr: u16, real_size: u32) -> Vec<u8> {
    let mut r = vec![0u8; 1024];
    r[0..4].copy_from_slice(sig);
    r[4..6].copy_from_slice(&48u16.to_le_bytes());
    r[6..8].copy_from_slice(&3u16.to_le_bytes());
    r[8..16].copy_from_slice(&0x0102030405060708u64.to_le_bytes());
    r[16..18].copy_from_slice(&7u16.to_le_bytes());
    r[18..20].copy_from_slice(&2u16.to_le_bytes());
    r[20..22].copy_from_slice(&first_attr.to_le_bytes());
    r[22..24].copy_from_slice(&3u16.to_le_bytes());
    r[24..28].copy_from_slice(&real_size.to_le_bytes());
    r[28..32].copy_from_slice(&1024u32.to_le_bytes());
    r
}

fn filetime(unix_secs: u64) -> u64 {
    (unix_secs + 11_644_473_600) * 10_000_000
}

#[test]
fn boot_sector_round_trip() {
    let b = NtfsBootSector {
        bytes_per_sector: 4096,
        sectors_per_cluster: 1,
        mft_lcn: 0xC0000,
        mft_mirror_lcn: 2,
        clusters_per_file_record_segment: -12,
        clusters_per_index_buffer: -12,
        volume_serial_number: 0xDEAD_BEEF_0BAD_F00D,
    };
    let bytes = b.encode();
    assert_eq!(bytes.len(), 512);
    assert_eq!(&bytes[3..11], b"NTFS    ");
    assert_eq!(NtfsBootSector::parse(&bytes), Some(b));
    assert_eq!(b.bytes_per_cluster(), 4096);
    assert_eq!(b.file_record_size_bytes(), Some(4096));
    assert_eq!(validate_vbr(&b), Ok(4096));
}

#[test]
fn boot_sector_parse_rejects_short_or_foreign() {
    assert_eq!(NtfsBootSector::parse(&[0u8; 100]), None);
    let mut v = vec![0u8; 512];
    v[3..11].copy_from_slice(b"MSDOS5.0");
    assert_eq!(NtfsBootSector::parse(&v), None);
}

#[test]
fn record_size_from_positive_clusters() {
    let mut b = NtfsBootSector {
        bytes_per_sector: 512,
        sectors_per_cluster: 2,
        mft_lcn: 4,
        mft_mirror_lcn: 8,
        clusters_per_file_record_segment: 2,
        clusters_per_index_buffer: 1,
        volume_serial_number: 1,
    };
    assert_eq!(b.file_record_size_bytes(), Some(2048));
    b.clusters_per_file_record_segment = -32;
    assert_eq!(b.file_record_size_bytes(), None);
    b.clusters_per_file_record_segment = -9;
    assert_eq!(b.file_record_size_bytes(), Some(512));
    assert_eq!(validate_vbr(&b), Err(VbrError::BadRecordSize));
}

#[test]
fn vbr_validation_errors() {
    let good = NtfsBootSector {
        bytes_per_sector: 512,
        sectors_per_cluster: 8,
        mft_lcn: 4,
        mft_mirror_lcn: 8,
        clusters_per_file_record_segment: -10,
        clusters_per_index_buffer: 1,
        volume_serial_number: 1,
    };
    assert_eq!(validate_vbr(&good), Ok(1024));
    let mut b = good;
    b.bytes_per_sector = 500;
    assert_eq!(validate_vbr(&b), Err(VbrError::BadBytesPerSector));
    let mut b = good;
    b.sectors_per_cluster = 6;
    assert_eq!(validate_vbr(&b), Err(VbrError::BadSectorsPerCluster));
    let mut b = good;
    b.sectors_per_cluster = 0;
    assert_eq!(validate_vbr(&b), Err(VbrError::BadSectorsPerCluster));
    let mut b = good;
    b.mft_lcn = 0;
    assert_eq!(validate_vbr(&b), Err(VbrError::ZeroMftLcn));
}

#[test]
fn header_parse_and_flags() {
    let h = MftRecordHeader::parse(&header_bytes(b"FILE", 56, 400)).unwrap();
    assert_eq!(h.signature, RecordSignature::File);
    assert_eq!(h.signature.as_str(), "FILE");
    assert_eq!(h.sequence_number, 7);
    assert_eq!(h.hard_link_count, 2);
    assert_eq!(h.logfile_sequence_number, 0x0102030405060708);
    assert_eq!(h.real_size, 400);
    assert!(h.is_in_use());
    assert!(h.is_directory());
    let b = MftRecordHeader::parse(&header_bytes(b"BAAD", 56, 400)).unwrap();
    assert_eq!(b.signature, RecordSignature::Baad);
    assert_eq!(MftRecordHeader::parse(&header_bytes(b"JUNK", 56, 400)), None);
    assert_eq!(MftRecordHeader::parse(&[0u8; 47]), None);
}

#[test]
fn first_attribute_boundary() {
    let ok = MftRecordHeader::parse(&header_bytes(b"FILE", 392, 400)).unwrap();
    assert_eq!(validate_record_boundaries(&ok, 1024), Ok(()));
    let bad = MftRecordHeader::parse(&header_bytes(b"FILE", 393, 400)).unwrap();
    assert_eq!(validate_record_boundaries(&bad, 1024), Err(RecordError::NoRoomForAttributes));
    let baad = MftRecordHeader::parse(&header_bytes(b"BAAD", 56, 400)).unwrap();
    assert_eq!(validate_record_boundaries(&baad, 1024), Err(RecordError::NotFile));
    let small = MftRecordHeader::parse(&header_bytes(b"FILE", 56, 40)).unwrap();
    assert_eq!(validate_record_boundaries(&small, 1024), Err(RecordError::RealSizeTooSmall));
    let big = MftRecordHeader::parse(&header_bytes(b"FILE", 56, 2000)).unwrap();
    assert_eq!(validate_record_boundaries(&big, 1024), Err(RecordError::RealSizeTooLarge));
    let far = MftRecordHeader::parse(&header_bytes(b"FILE", 1024, 400)).unwrap();
    assert_eq!(validate_record_boundaries(&far, 1024), Err(RecordError::FirstAttributeOutside));
}

fn tagged_record() -> Vec<u8> {
    let mut r = header_bytes(b"FILE", 56, 400);
    r[48] = 0x2A;
    r[49] = 0x00;
    r[50] = 0x11;
    r[51] = 0x22;
    r[52] = 0x33;
    r[53] = 0x44;
    r[510] = 0x2A;
    r[511] = 0x00;
    r[1022] = 0x2A;
    r[1023] = 0x00;
    r
}

#[test]
fn fixups_restore_sector_tails() {
    let mut r = tagged_record();
    let h = MftRecordHeader::parse(&r).unwrap();
    assert_eq!(apply_fixups(&mut r, &h, 512), FixupResult::Clean);
    assert_eq!(&r[510..512], &[0x11, 0x22]);
    assert_eq!(&r[1022..1024], &[0x33, 0x44]);
}

#[test]
fn torn_write_is_detected() {
    let mut r = tagged_record();
    r[511] = 0x01;
    let h = MftRecordHeader::parse(&r).unwrap();
    assert_eq!(apply_fixups(&mut r, &h, 512), FixupResult::TornWrite);
    assert_eq!(&r[510..512], &[0x11, 0x22]);
    assert_eq!(&r[1022..1024], &[0x33, 0x44]);
}

#[test]
fn fixups_fail_on_bad_layout() {
    let mut r = tagged_record();
    r.truncate(1000);
    let h = MftRecordHeader::parse(&r).unwrap();
    let before = r.clone();
    assert_eq!(apply_fixups(&mut r, &h, 512), FixupResult::Failed);
    assert_eq!(r, before);
    let mut r = tagged_record();
    r[4..6].copy_from_slice(&1020u16.to_le_bytes());
    let h = MftRecordHeader::parse(&r).unwrap();
    assert_eq!(apply_fixups(&mut r, &h, 512), FixupResult::Failed);
    let mut r = tagged_record();
    let h = MftRecordHeader::parse(&r).unwrap();
    assert_eq!(apply_fixups(&mut r, &h, 0), FixupResult::Failed);
}

#[test]
fn runlist_zero_header_ends() {
    let rec = vec![0x00u8, 0x11, 0x01, 0x01];
    assert_eq!(parse_data_runs(&rec, 0, 4, 0), Ok(vec![]));
}

#[test]
fn runlist_zero_length_width_is_rejected() {
    let rec = vec![0x10u8, 0x05, 0x00];
    assert_eq!(parse_data_runs(&rec, 0, 3, 0), Err(RunlistError::BadHeader));
}

#[test]
fn runlist_negative_delta_decreases_lcn() {
    // Run 1: 4 clusters at LCN 0x100; run 2: 2 clusters at 0x100 - 0x80 = 0x80.
    let rec = vec![0x21u8, 0x04, 0x00, 0x01, 0x11, 0x02, 0x80, 0x00];
    assert_eq!(
        parse_data_runs(&rec, 0, rec.len(), 0),
        Ok(vec![
            DataRun { vcn_start: 0, length: 4, lcn: 0x100, is_sparse: false },
            DataRun { vcn_start: 4, length: 2, lcn: 0x80, is_sparse: false },
        ])
    );
}

#[test]
fn runlist_sparse_and_errors() {
    let rec = vec![0x11u8, 0x02, 0x10, 0x01, 0x03, 0x00];
    assert_eq!(
        parse_data_runs(&rec, 0, rec.len(), 10),
        Ok(vec![
            DataRun { vcn_start: 10, length: 2, lcn: 0x10, is_sparse: false },
            DataRun { vcn_start: 12, length: 3, lcn: 0, is_sparse: true },
        ])
    );
    assert_eq!(parse_data_runs(&[0x11u8, 0x00, 0x01], 0, 3, 0), Err(RunlistError::ZeroLength));
    assert_eq!(parse_data_runs(&[0x31u8, 0x01, 0x01], 0, 3, 0), Err(RunlistError::OutOfBounds));
    assert_eq!(parse_data_runs(&[0x11u8, 0x01, 0xFF], 0, 3, 0), Err(RunlistError::NegativeLcn));
    assert_eq!(parse_data_runs(&[0x19u8, 0x01, 0x01], 0, 3, 0), Err(RunlistError::BadHeader));
}

#[test]
fn assembled_runlist_is_sorted_and_checked() {
    let mut runs = vec![
        DataRun { vcn_start: 4, length: 2, lcn: 9, is_sparse: false },
        DataRun { vcn_start: 0, length: 4, lcn: 20, is_sparse: false },
    ];
    assert_eq!(assemble_runlist(&mut runs, 4096, 6 * 4096), Ok(6 * 4096));
    assert_eq!(runs[0].vcn_start, 0);
    assert_eq!(runs[1].vcn_start, 4);
    let mut short = runs.clone();
    assert_eq!(assemble_runlist(&mut short, 4096, 7 * 4096), Err(RunlistError::Short));
    let mut gap = vec![
        DataRun { vcn_start: 0, length: 2, lcn: 9, is_sparse: false },
        DataRun { vcn_start: 3, length: 2, lcn: 9, is_sparse: false },
    ];
    assert_eq!(assemble_runlist(&mut gap, 4096, 0), Err(RunlistError::Gap));
    let mut overlap = vec![
        DataRun { vcn_start: 0, length: 4, lcn: 9, is_sparse: false },
        DataRun { vcn_start: 3, length: 2, lcn: 9, is_sparse: false },
    ];
    assert_eq!(assemble_runlist(&mut overlap, 4096, 0), Err(RunlistError::Overlap));
    let mut late = vec![DataRun { vcn_start: 1, length: 4, lcn: 9, is_sparse: false }];
    assert_eq!(assemble_runlist(&mut late, 4096, 0), Err(RunlistError::Gap));
    let mut empty: Vec<DataRun> = vec![];
    assert_eq!(assemble_runlist(&mut empty, 4096, 0), Err(RunlistError::Empty));
}

#[test]
fn path_cycle_is_reported() {
    let mut pb = PathBuilder::new();
    pb.add_entry(30, 1, 31, 1, "a".to_string());
    pb.add_entry(31, 1, 30, 1, "b".to_string());
    assert_eq!(pb.get_full_path(30, 1), "\\<CORRUPTED_LOOP>\\b\\a");
}

#[test]
fn path_through_root() {
    let mut pb = PathBuilder::new();
    pb.add_entry(5, 5, 5, 5, ".".to_string());
    pb.add_entry(40, 2, 5, 5, "Windows".to_string());
    pb.add_entry(41, 9, 40, 2, "notepad.exe".to_string());
    assert_eq!(pb.get_full_path(41, 9), "\\Windows\\notepad.exe");
    assert_eq!(pb.get_full_path(41, 0), "\\Windows\\notepad.exe");
    assert_eq!(pb.get_parent_path(5, 5), "\\");
    assert_eq!(pb.get_parent_path(999, 1), "\\");
    let first = pb.get_full_path(41, 9);
    let second = pb.get_full_path(41, 9);
    assert_eq!(first, second);
}

#[test]
fn path_sequence_mismatch_is_orphan() {
    let mut pb = PathBuilder::new();
    pb.add_entry(5, 5, 5, 5, ".".to_string());
    pb.add_entry(40, 2, 5, 5, "Users".to_string());
    pb.add_entry(41, 1, 40, 3, "file.txt".to_string());
    assert_eq!(pb.get_full_path(41, 1), "\\<ORPHAN_OR_REALLOCATED>\\file.txt");
}

#[test]
fn self_referencing_attribute_list_entry_is_ignored() {
    let mut r = header_bytes(b"FILE", 56, 400);
    // A resident $ATTRIBUTE_LIST with entries naming records 12 (itself), 13 and 13 again.
    let mut list = Vec::new();
    for e in [12u64, 13, 13, 0] {
        let mut ent = vec![0u8; 32];
        ent[0..4].copy_from_slice(&0x80u32.to_le_bytes());
        ent[4..6].copy_from_slice(&32u16.to_le_bytes());
        ent[16..24].copy_from_slice(&(e | (1u64 << 48)).to_le_bytes());
        list.extend(ent);
    }
    let attr_len = 0x18 + list.len();
    r[56..60].copy_from_slice(&0x20u32.to_le_bytes());
    r[60..64].copy_from_slice(&(attr_len as u32).to_le_bytes());
    r[56 + 0x10..56 + 0x14].copy_from_slice(&(list.len() as u32).to_le_bytes());
    r[56 + 0x14..56 + 0x16].copy_from_slice(&0x18u16.to_le_bytes());
    r[56 + 0x18..56 + 0x18 + list.len()].copy_from_slice(&list);
    let end = 56 + attr_len;
    r[end..end + 4].copy_from_slice(&0xFFFF_FFFFu32.to_le_bytes());
    let (refs, complex) = extent_references(&r, 12, 1024, 100);
    assert_eq!(refs, vec![13]);
    assert!(!complex);
}

#[test]
fn record_count_from_file_size() {
    assert_eq!(total_records(10 * 1024 + 5, 1024), 10);
    assert_eq!(total_records(4096, 0), 0);
}

#[test]
fn timestomp_heuristic_fires() {
    let si_c = filetime(1_577_836_800);
    let fn_c = filetime(1_685_577_600);
    let ts = TimestampData { si_c, si_m: si_c, si_e: si_c, si_a: si_c, fn_c, fn_m: si_c, fn_e: si_c, fn_a: si_c };
    assert!(ts.is_timestomped());
    let calm = TimestampData { fn_c: si_c + 50 * 10_000_000, ..ts };
    assert!(!calm.is_timestomped());
}

#[test]
fn copy_and_subsecond_heuristics() {
    let t = filetime(1_600_000_000);
    let ts = TimestampData { si_c: t + 10, si_m: t, si_e: t, si_a: t, fn_c: t + 1, fn_m: t + 2, fn_e: t + 3, fn_a: t };
    assert!(ts.is_copied());
    assert!(ts.has_usec_zeros());
    assert!(!TimestampData { si_c: t, ..ts }.is_copied());
    assert!(ts.is_before_volume_birth(Some(t + 2 * 10_000_000)));
    assert!(!ts.is_before_volume_birth(Some(t + 5_000_000)));
    assert!(!ts.is_before_volume_birth(None));
}

#[test]
fn standard_information_and_file_name_decode() {
    let mut si = vec![0u8; 72];
    si[0..8].copy_from_slice(&11u64.to_le_bytes());
    si[32..36].copy_from_slice(&0x20u32.to_le_bytes());
    si[52..56].copy_from_slice(&0x105u32.to_le_bytes());
    let s = StandardInformation::parse(&si).unwrap();
    assert_eq!(s.creation_time, 11);
    assert_eq!(s.file_attributes, 0x20);
    assert_eq!(s.security_id, 0x105);
    assert_eq!(StandardInformation::parse(&si[..48]).unwrap().security_id, 0);
    assert_eq!(StandardInformation::parse(&si[..40]), None);
    let mut f = vec![0u8; 66 + 6];
    f[0..8].copy_from_slice(&(5u64 | (5u64 << 48)).to_le_bytes());
    f[48..56].copy_from_slice(&1234u64.to_le_bytes());
    f[64] = 3;
    f[65] = 1;
    for (i, c) in "a.b".encode_utf16().enumerate() {
        f[66 + 2 * i..68 + 2 * i].copy_from_slice(&c.to_le_bytes());
    }
    let n = FileNameAttribute::parse(&f).unwrap();
    assert_eq!(n.name, "a.b");
    assert_eq!(n.logical_size, 1234);
    assert_eq!(n.name_type, 1);
    assert!(n.is_preferred());
    assert!(FileNameAttribute::parse(&f[..70]).is_none());
}

#[test]
fn human_readable_text_drops_controls() {
    assert_eq!(extract_human_readable(b"[ZoneTransfer]\r\nZoneId=3\x00\x07"), "[ZoneTransfer]\r\nZoneId=3");
    assert_eq!(extract_human_readable(&[0x41, 0xFF, 0x42, 0x09]), "AB\t");
    assert_eq!(extract_human_readable(&[]), "");
}

#[test]
fn rules_match_lowered_paths() {
    let applocker = Rule::glob(r"*\Windows\System32\AppLocker\*.txt").unwrap().and(Rule::ends_with("123.txt").not());
    assert!(applocker.check(r"C:\Windows\System32\AppLocker\policy.txt"));
    assert!(!applocker.check(r"C:\Windows\System32\AppLocker\policy123.txt"));
    assert!(!applocker.check(r"C:\Windows\System32\AppLocker\policy.txt.bak"));
    let public = Rule::starts_with("C:\\Users\\Public\\").and(Rule::ends_with(".exe"));
    assert!(public.check_lowered("c:\\users\\public\\x.exe"));
    assert!(!public.check_lowered("c:\\users\\bob\\x.exe"));
    let dll = Rule::contains("\\system32\\").and(Rule::ends_with(".dll"));
    assert!(dll.check("C:\\Windows\\System32\\evil.DLL"));
    assert!(!dll.check("C:\\Windows\\SysWOW64\\evil.dll"));
    let q = Rule::glob("a?c").unwrap();
    assert!(q.check("ABC"));
    assert!(!q.check("abbc"));
    let dot = Rule::glob("*.exe").unwrap();
    assert!(!dot.check("fileXexe"));
}

#[test]
fn drive_prefix_extension_and_rule_fit() {
    assert_eq!(drive_prefix("\\\\.\\C:"), "C:");
    assert_eq!(drive_prefix("/dev/sdb1"), "");
    assert_eq!(drive_prefix("\\\\.\\PhysicalDrive0"), "");
    assert_eq!(extension_of(&"archive.tar.gz".to_string(), false), Some("gz".to_string()));
    assert_eq!(extension_of(&"README".to_string(), false), None);
    assert_eq!(extension_of(&"dir.d".to_string(), true), None);
    assert_eq!(extension_of(&"trailing.".to_string(), false), Some(String::new()));
    let rules = vec![Rule::contains("\\system32\\").and(Rule::ends_with(".dll"))];
    assert!(fits_rules(&rules, &"C:\\Windows\\System32\\x.DLL".to_string()));
    assert!(!fits_rules(&rules, &"C:\\Windows\\x.dll".to_string()));
    assert!(!fits_rules(&rules, &String::new()));
}

#[test]
fn drive_letters_name_raw_volumes() {
    assert_eq!(volume_path("C:"), "\\\\.\\C:");
    assert_eq!(volume_path("d:\\"), "\\\\.\\d:");
    assert_eq!(volume_path("image.raw"), "image.raw");
    assert_eq!(volume_path("1:"), "1:");
}
