use mft_shadow_forge::fixup::FixupResult;
use mft_shadow_forge::models::meta_path_for_mft;
use mft_shadow_forge::parser::{compose_full_path, record_pass1, record_pass2, update_sequence_number};
use mft_shadow_forge::path::PathBuilder;
use mft_shadow_forge::record::MftRecordHeader;

fn filetime(unix_secs: u64) -> u64 {
    (unix_secs + 11_644_473_600) * 10_000_000
}

fn resident(attr_type: u32, name: &str, value: &[u8]) -> Vec<u8> {
    let units: Vec<u16> = name.encode_utf16().collect();
    let name_off = 0x18;
    let value_off = (name_off + 2 * units.len() + 7) / 8 * 8;
    let len = (value_off + value.len() + 7) / 8 * 8;
    let mut a = vec![0u8; len];
    a[0..4].copy_from_slice(&attr_type.to_le_bytes());
    a[4..8].copy_from_slice(&(len as u32).to_le_bytes());
    a[9] = units.len() as u8;
    a[10..12].copy_from_slice(&(name_off as u16).to_le_bytes());
    a[0x10..0x14].copy_from_slice(&(value.len() as u32).to_le_bytes());
    a[0x14..0x16].copy_from_slice(&(value_off as u16).to_le_bytes());
    for (i, u) in units.iter().enumerate() {
        a[name_off + 2 * i..name_off + 2 * i + 2].copy_from_slice(&u.to_le_bytes());
    }
    a[value_off..value_off + value.len()].copy_from_slice(value);
    a
}

fn si_value(created: u64, modified: u64) -> Vec<u8> {
    let mut v = vec![0u8; 72];
    v[0..8].copy_from_slice(&created.to_le_bytes());
    v[8..16].copy_from_slice(&modified.to_le_bytes());
    v[16..24].copy_from_slice(&modified.to_le_bytes());
    v[24..32].copy_from_slice(&modified.to_le_bytes());
    v
}

fn fn_value(parent: u64, parent_seq: u16, created: u64, name: &str, name_type: u8) -> Vec<u8> {
    let units: Vec<u16> = name.encode_utf16().collect();
    let mut v = vec![0u8; 66 + 2 * units.len()];
    v[0..8].copy_from_slice(&(parent | ((parent_seq as u64) << 48)).to_le_bytes());
    v[8..16].copy_from_slice(&created.to_le_bytes());
    v[16..24].copy_from_slice(&created.to_le_bytes());
    v[24..32].copy_from_slice(&created.to_le_bytes());
    v[32..40].copy_from_slice(&created.to_le_bytes());
    v[48..56].copy_from_slice(&777u64.to_le_bytes());
    v[64] = units.len() as u8;
    v[65] = name_type;
    for (i, u) in units.iter().enumerate() {
        v[66 + 2 * i..68 + 2 * i].copy_from_slice(&u.to_le_bytes());
    }
    v
}

fn record(seq: u16, flags: u16, attrs: &[Vec<u8>]) -> Vec<u8> {
    let mut r = vec![0u8; 1024];
    r[0..4].copy_from_slice(b"FILE");
    r[4..6].copy_from_slice(&48u16.to_le_bytes());
    r[6..8].copy_from_slice(&3u16.to_le_bytes());
    r[16..18].copy_from_slice(&seq.to_le_bytes());
    r[20..22].copy_from_slice(&56u16.to_le_bytes());
    r[22..24].copy_from_slice(&flags.to_le_bytes());
    let mut off = 56;
    for a in attrs {
        r[off..off + a.len()].copy_from_slice(a);
        off += a.len();
    }
    r[off..off + 4].copy_from_slice(&0xFFFF_FFFFu32.to_le_bytes());
    r[24..28].copy_from_slice(&((off + 8) as u32).to_le_bytes());
    r[28..32].copy_from_slice(&1024u32.to_le_bytes());
    r[48..50].copy_from_slice(&0x0009u16.to_le_bytes());
    for i in 1..=2 {
        let tail = i * 512 - 2;
        r[48 + 2 * i] = r[tail];
        r[48 + 2 * i + 1] = r[tail + 1];
        r[tail] = 0x09;
        r[tail + 1] = 0x00;
    }
    r
}

fn no_fetch(_: u64) -> Option<Vec<u8>> {
    None
}

#[test]
fn torn_record_is_emitted_with_flag() {
    let mut paths = PathBuilder::new();
    paths.add_entry(5, 5, 5, 5, ".".to_string());
    let t = filetime(1_600_000_000);
    let mut r = record(3, 1, &[resident(0x10, "", &si_value(t, t)), resident(0x30, "", &fn_value(5, 5, t, "a.txt", 1))]);
    r[511] = 0x77;
    let e = record_pass2(&no_fetch, &paths, None, 40, r, 1024, 100, 512, false, "C:", &"mft.raw".to_string()).unwrap();
    assert!(e.torn_write);
    assert_eq!(e.file_name, "a.txt");
    assert_eq!(e.full_path, "C:\\a.txt");
    assert_eq!(e.parent_path, "\\");
    assert_eq!(e.file_size, 777);
    assert!(e.in_use);
}

#[test]
fn timestomped_entry_is_flagged() {
    let mut paths = PathBuilder::new();
    paths.add_entry(5, 5, 5, 5, ".".to_string());
    let si_c = filetime(1_577_836_800);
    let fn_c = filetime(1_685_577_600);
    let r = record(1, 1, &[resident(0x10, "", &si_value(si_c, fn_c)), resident(0x30, "", &fn_value(5, 5, fn_c, "x.exe", 3))]);
    let e = record_pass2(&no_fetch, &paths, None, 41, r, 1024, 100, 512, false, "", &"m".to_string()).unwrap();
    assert!(e.timestomped);
    assert!(!e.torn_write);
    assert_eq!(e.created0x10, Some(si_c));
    assert_eq!(e.created0x30, Some(fn_c));
    assert_eq!(e.full_path, "\\x.exe");
}

#[test]
fn two_passes_build_paths_and_skip_extents() {
    let fetchless = no_fetch;
    let mut paths = PathBuilder::new();
    let mut birth: Option<u64> = None;
    let t = filetime(1_500_000_000);
    let root = record(5, 3, &[resident(0x10, "", &si_value(t, t)), resident(0x30, "", &fn_value(5, 5, t, ".", 3))]);
    let dir = record(2, 3, &[resident(0x30, "", &fn_value(5, 5, t, "Users", 1))]);
    let file = record(
        7,
        1,
        &[
            resident(0x10, "", &si_value(t - 20_000_000_000, t)),
            resident(0x30, "", &fn_value(40, 2, t, "FILE~1.TXT", 2)),
            resident(0x30, "", &fn_value(40, 2, t, "file.txt", 1)),
            resident(0x80, "", b"hello\x01"),
            resident(0x80, "Zone.Identifier", b"[ZoneTransfer]\r\nZoneId=3\r\n"),
        ],
    );
    let mut extent = record(1, 1, &[]);
    extent[32..40].copy_from_slice(&41u64.to_le_bytes());
    record_pass1(&fetchless, &mut paths, &mut birth, 5, root.clone(), 1024, 100, 512);
    record_pass1(&fetchless, &mut paths, &mut birth, 40, dir.clone(), 1024, 100, 512);
    record_pass1(&fetchless, &mut paths, &mut birth, 41, file.clone(), 1024, 100, 512);
    record_pass1(&fetchless, &mut paths, &mut birth, 42, extent.clone(), 1024, 100, 512);
    assert_eq!(birth, Some(t));
    assert_eq!(paths.get_full_path(41, 7), "\\Users\\file.txt");
    assert_eq!(paths.get_full_path(42, 0), "\\");
    let e = record_pass2(&fetchless, &paths, birth, 41, file, 1024, 100, 512, true, "D:", &"m".to_string()).unwrap();
    assert_eq!(e.file_name, "file.txt");
    assert_eq!(e.parent_path, "\\Users");
    assert_eq!(e.full_path, "D:\\Users\\file.txt");
    assert_eq!(e.name_type, 1);
    assert!(e.has_ads);
    assert_eq!(e.file_size, 6);
    assert_eq!(e.content_data, Some("hello".to_string()));
    assert_eq!(e.zone_id_contents, Some("[ZoneTransfer]\r\nZoneId=3\r\n".to_string()));
    assert!(e.timestomped);
    assert!(record_pass2(&fetchless, &paths, birth, 42, extent, 1024, 100, 512, true, "D:", &"m".to_string()).is_none());
    let mut baad = dir.clone();
    baad[0..4].copy_from_slice(b"BAAD");
    let damaged = record_pass2(&fetchless, &paths, birth, 40, baad, 1024, 100, 512, true, "D:", &"m".to_string()).unwrap();
    assert_eq!(damaged.signature, "BAAD");
    assert_eq!(damaged.full_path, "D:\\Users");
    assert_eq!(e.signature, "FILE");
}

#[test]
fn orphaned_parent_is_reported_in_path() {
    let mut paths = PathBuilder::new();
    paths.add_entry(5, 5, 5, 5, ".".to_string());
    paths.add_entry(40, 9, 5, 5, "Reused".to_string());
    let t = filetime(1_600_000_000);
    let r = record(1, 1, &[resident(0x30, "", &fn_value(40, 8, t, "old.doc", 1))]);
    let e = record_pass2(&no_fetch, &paths, None, 50, r, 1024, 100, 512, false, "", &"m".to_string()).unwrap();
    assert_eq!(e.parent_path, "\\<ORPHAN_OR_REALLOCATED>");
    assert_eq!(e.full_path, "\\<ORPHAN_OR_REALLOCATED>\\old.doc");
}

#[test]
fn extent_records_are_gathered_through_fetch() {
    let mut paths = PathBuilder::new();
    paths.add_entry(5, 5, 5, 5, ".".to_string());
    let t = filetime(1_600_000_000);
    let mut list = vec![0u8; 32];
    list[0..4].copy_from_slice(&0x30u32.to_le_bytes());
    list[4..6].copy_from_slice(&32u16.to_le_bytes());
    list[16..24].copy_from_slice(&(60u64 | (1u64 << 48)).to_le_bytes());
    let base = record(1, 1, &[resident(0x20, "", &list)]);
    let ext = record(1, 1, &[resident(0x30, "", &fn_value(5, 5, t, "far.bin", 1))]);
    let fetch = move |entry: u64| if entry == 60 { Some(ext.clone()) } else { None };
    let e = record_pass2(&fetch, &paths, None, 59, base, 1024, 100, 512, false, "", &"m".to_string()).unwrap();
    assert_eq!(e.file_name, "far.bin");
    assert!(!e.complex_extents);
}

#[test]
fn usn_and_path_helpers() {
    let r = record(1, 1, &[]);
    let h = MftRecordHeader::parse(&r).unwrap();
    assert_eq!(update_sequence_number(&r, &h), Some(9));
    assert_eq!(compose_full_path("C:", &"\\".to_string(), &"x".to_string()), "C:\\x");
    assert_eq!(compose_full_path("", &"\\a\\b".to_string(), &"x".to_string()), "\\a\\b\\x");
    assert_eq!(meta_path_for_mft("out/mft.raw"), "out/mft.raw.meta.json");
    assert_ne!(FixupResult::Clean, FixupResult::TornWrite);
}
