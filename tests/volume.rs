use mft_shadow_forge::boot::{validate_vbr, NtfsBootSector, VbrError};
use mft_shadow_forge::extract::{extent_runs, extract_runlist, read_logical_mft, ExtentTarget, ExtractError};
use mft_shadow_forge::locate::{check_vbr_bytes, find_ntfs_partition, partition_entry, NoNtfsPartition};
use mft_shadow_forge::runlist::DataRun;

const SECTOR: usize = 512;

fn boot(bps: u16, spc: u8, mft_lcn: u64) -> NtfsBootSector {
    NtfsBootSector {
        bytes_per_sector: bps,
        sectors_per_cluster: spc,
        mft_lcn,
        mft_mirror_lcn: 2,
        clusters_per_file_record_segment: -10,
        clusters_per_index_buffer: 1,
        volume_serial_number: 0x1122_3344_5566_7788,
    }
}

fn put(img: &mut Vec<u8>, off: usize, bytes: &[u8]) {
    img[off..off + bytes.len()].copy_from_slice(bytes);
}

fn reader(img: &Vec<u8>) -> impl Fn(u64, usize) -> Option<Vec<u8>> + '_ {
    move |off: u64, len: usize| {
        let start = off as usize;
        if start.checked_add(len)? > img.len() {
            return None;
        }
        Some(img[start..start + len].to_vec())
    }
}

fn mbr_entry(sector: &mut [u8], i: usize, part_type: u8, lba: u32) {
    let off = 446 + 16 * i;
    sector[off + 4] = part_type;
    sector[off + 8..off + 12].copy_from_slice(&lba.to_le_bytes());
}

fn signed(sector: &mut [u8]) {
    sector[510] = 0x55;
    sector[511] = 0xAA;
}

/// A 1024-byte record with a 3-slot USA at 48, the given attributes from 56, an end marker,
/// and its two sector tails tagged with 0x0001.
fn make_record(seq: u16, base_ref: u64, attrs: &[Vec<u8>]) -> Vec<u8> {
    let mut r = vec![0u8; 1024];
    r[0..4].copy_from_slice(b"FILE");
    r[4..6].copy_from_slice(&48u16.to_le_bytes());
    r[6..8].copy_from_slice(&3u16.to_le_bytes());
    r[16..18].copy_from_slice(&seq.to_le_bytes());
    r[18..20].copy_from_slice(&1u16.to_le_bytes());
    r[20..22].copy_from_slice(&56u16.to_le_bytes());
    r[22..24].copy_from_slice(&1u16.to_le_bytes());
    r[32..40].copy_from_slice(&base_ref.to_le_bytes());
    let mut off = 56;
    for a in attrs {
        r[off..off + a.len()].copy_from_slice(a);
        off += a.len();
    }
    r[off..off + 4].copy_from_slice(&0xFFFF_FFFFu32.to_le_bytes());
    let real = (off + 8) as u32;
    r[24..28].copy_from_slice(&real.to_le_bytes());
    r[28..32].copy_from_slice(&1024u32.to_le_bytes());
    r[48..50].copy_from_slice(&1u16.to_le_bytes());
    for i in 1..=2 {
        let tail = i * 512 - 2;
        r[48 + 2 * i] = r[tail];
        r[48 + 2 * i + 1] = r[tail + 1];
        r[tail] = 0x01;
        r[tail + 1] = 0x00;
    }
    r
}

fn nonresident_data(start_vcn: u64, allocated: u64, runs: &[u8]) -> Vec<u8> {
    let mut len = 0x40 + runs.len();
    len = (len + 7) / 8 * 8;
    let mut a = vec![0u8; len];
    a[0..4].copy_from_slice(&0x80u32.to_le_bytes());
    a[4..8].copy_from_slice(&(len as u32).to_le_bytes());
    a[8] = 1;
    a[10..12].copy_from_slice(&0x40u16.to_le_bytes());
    a[0x10..0x18].copy_from_slice(&start_vcn.to_le_bytes());
    a[0x20..0x22].copy_from_slice(&0x40u16.to_le_bytes());
    a[0x28..0x30].copy_from_slice(&allocated.to_le_bytes());
    a[0x30..0x38].copy_from_slice(&allocated.to_le_bytes());
    a[0x40..0x40 + runs.len()].copy_from_slice(runs);
    a
}

fn resident(attr_type: u32, value: &[u8]) -> Vec<u8> {
    let mut len = 0x18 + value.len();
    len = (len + 7) / 8 * 8;
    let mut a = vec![0u8; len];
    a[0..4].copy_from_slice(&attr_type.to_le_bytes());
    a[4..8].copy_from_slice(&(len as u32).to_le_bytes());
    a[10..12].copy_from_slice(&0x18u16.to_le_bytes());
    a[0x10..0x14].copy_from_slice(&(value.len() as u32).to_le_bytes());
    a[0x14..0x16].copy_from_slice(&0x18u16.to_le_bytes());
    a[0x18..0x18 + value.len()].copy_from_slice(value);
    a
}

fn list_entry(attr_type: u32, start_vcn: u64, entry: u64, seq: u16) -> Vec<u8> {
    let mut e = vec![0u8; 32];
    e[0..4].copy_from_slice(&attr_type.to_le_bytes());
    e[4..6].copy_from_slice(&32u16.to_le_bytes());
    e[7] = 26;
    e[8..16].copy_from_slice(&start_vcn.to_le_bytes());
    let r = entry | ((seq as u64) << 48);
    e[16..24].copy_from_slice(&r.to_le_bytes());
    e
}

#[test]
fn superfloppy_512_image_extracts() {
    let mut img = vec![0u8; 20 * 1024 * 1024];
    put(&mut img, 0, &boot(512, 8, 4).encode());
    // $MFT: 4 clusters at LCN 4.
    let rec0 = make_record(1, 0, &[nonresident_data(0, 4 * 4096, &[0x11, 0x04, 0x04, 0x00])]);
    put(&mut img, 4 * 4096, &rec0);
    let read = reader(&img);
    let layout = extract_runlist(&read).unwrap();
    assert_eq!(layout.partition_offset, 0);
    assert_eq!(layout.record_size, 1024);
    assert_eq!(layout.bytes_per_cluster, 4096);
    assert_eq!(layout.total_bytes, 4 * 4096);
    assert_eq!(layout.total_bytes % 1024, 0);
    assert_eq!(layout.runs, vec![DataRun { vcn_start: 0, length: 4, lcn: 4, is_sparse: false }]);
    let first = read_logical_mft(&read, &layout.runs, 4096, 0, 0, 1024).unwrap();
    assert_eq!(&first[0..4], b"FILE");
}

#[test]
fn gpt_second_partition_is_found() {
    let mut img = vec![0u8; 64 * 1024];
    let mut mbr = vec![0u8; SECTOR];
    mbr_entry(&mut mbr, 0, 0xEE, 1);
    signed(&mut mbr);
    put(&mut img, 0, &mbr);
    let mut hdr = vec![0u8; SECTOR];
    hdr[0..8].copy_from_slice(b"EFI PART");
    hdr[0x48..0x50].copy_from_slice(&2u64.to_le_bytes());
    hdr[0x50..0x54].copy_from_slice(&2u32.to_le_bytes());
    hdr[0x54..0x58].copy_from_slice(&128u32.to_le_bytes());
    put(&mut img, SECTOR, &hdr);
    let mut e0 = vec![0u8; 128];
    e0[0] = 0xA2;
    e0[0x20..0x28].copy_from_slice(&40u64.to_le_bytes());
    let mut e1 = vec![0u8; 128];
    e1[0] = 0xA3;
    e1[0x20..0x28].copy_from_slice(&34u64.to_le_bytes());
    put(&mut img, 2 * SECTOR, &e0);
    put(&mut img, 2 * SECTOR + 128, &e1);
    put(&mut img, 34 * SECTOR, &boot(512, 8, 4).encode());
    assert_eq!(find_ntfs_partition(&reader(&img)), Ok(34 * 512));
}

#[test]
fn ebr_chain_third_hop_is_found() {
    let mut img = vec![0u8; 600 * SECTOR];
    let mut mbr = vec![0u8; SECTOR];
    mbr_entry(&mut mbr, 0, 0x05, 100);
    signed(&mut mbr);
    put(&mut img, 0, &mbr);
    // EBRs at 100, 300 and 500; their logical partitions at +63.
    for (ebr, next) in [(100u32, Some(200u32)), (300, Some(400)), (500, None)] {
        let mut s = vec![0u8; SECTOR];
        mbr_entry(&mut s, 0, 0x07, 63);
        if let Some(n) = next {
            mbr_entry(&mut s, 1, 0x05, n);
        }
        signed(&mut s);
        put(&mut img, ebr as usize * SECTOR, &s);
    }
    put(&mut img, 563 * SECTOR, &boot(512, 8, 4).encode());
    assert_eq!(find_ntfs_partition(&reader(&img)), Ok(563 * 512));
}

#[test]
fn no_partition_on_blank_disk() {
    let img = vec![0u8; 16 * SECTOR];
    assert_eq!(find_ntfs_partition(&reader(&img)), Err(NoNtfsPartition));
}

#[test]
fn mbr_primary_partition_is_found() {
    let mut img = vec![0u8; 200 * SECTOR];
    let mut mbr = vec![0u8; SECTOR];
    mbr_entry(&mut mbr, 1, 0x07, 128);
    signed(&mut mbr);
    put(&mut img, 0, &mbr);
    put(&mut img, 128 * SECTOR, &boot(512, 8, 4).encode());
    assert_eq!(find_ntfs_partition(&reader(&img)), Ok(128 * 512));
}

#[test]
fn vbr_check_requires_matching_sector_size() {
    let v = boot(512, 8, 4).encode();
    assert!(check_vbr_bytes(&v, 512));
    assert!(!check_vbr_bytes(&v, 1024));
    let mut bad = v.clone();
    bad[3] = b'X';
    assert!(!check_vbr_bytes(&bad, 512));
    let mut unsigned = v.clone();
    unsigned[511] = 0;
    assert!(!check_vbr_bytes(&unsigned, 512));
}

#[test]
fn partition_entry_decodes_type_and_lba() {
    let mut s = vec![0u8; SECTOR];
    mbr_entry(&mut s, 2, 0x0F, 0x01020304);
    let e = partition_entry(&s, 2);
    assert_eq!(e.part_type, 0x0F);
    assert_eq!(e.lba_start, 0x01020304);
}

#[test]
fn cross_extent_data_is_assembled() {
    let mut img = vec![0u8; 2100 * 4096];
    put(&mut img, 0, &boot(512, 8, 4).encode());
    // Record 0: $ATTRIBUTE_LIST naming record 16 for the $DATA part at VCN 1024, then the
    // base $DATA: VCN 0..1024 at LCN 4 (runs: 0x21 len=0x400? use 2 length bytes).
    let mut list = list_entry(0x80, 0, 0, 1);
    list.extend(list_entry(0x80, 1024, 16, 3));
    let rec0 = make_record(
        1,
        0,
        &[resident(0x20, &list), nonresident_data(0, 1040 * 4096, &[0x12, 0x00, 0x04, 0x04, 0x00])],
    );
    put(&mut img, 4 * 4096, &rec0);
    let rec16 = make_record(3, 0, &[nonresident_data(1024, 0, &[0x21, 0x10, 0xD0, 0x07, 0x00])]);
    put(&mut img, 4 * 4096 + 16 * 1024, &rec16);
    let layout = extract_runlist(&reader(&img)).unwrap();
    assert_eq!(
        layout.runs,
        vec![
            DataRun { vcn_start: 0, length: 1024, lcn: 4, is_sparse: false },
            DataRun { vcn_start: 1024, length: 16, lcn: 2000, is_sparse: false },
        ]
    );
    assert_eq!(layout.total_bytes, 1040 * 4096);
    let sum: u64 = layout.runs.iter().map(|r| r.length * 4096).sum();
    assert_eq!(layout.total_bytes, sum);
}

#[test]
fn extent_sequence_mismatch_is_fatal() {
    let mut img = vec![0u8; 64 * 4096];
    let rec16 = make_record(5, 0, &[nonresident_data(8, 0, &[0x11, 0x02, 0x20, 0x00])]);
    put(&mut img, 16 * 1024, &rec16);
    let base = vec![DataRun { vcn_start: 0, length: 8, lcn: 0, is_sparse: false }];
    let mut runs = Vec::new();
    let read = reader(&img);
    let wrong = ExtentTarget { start_vcn: 8, entry: 16, seq: 4 };
    assert_eq!(extent_runs(&read, &base, &wrong, 1024, 512, 4096, 0, &mut runs), Err(ExtractError::SequenceMismatch));
    let right = ExtentTarget { start_vcn: 8, entry: 16, seq: 5 };
    assert_eq!(extent_runs(&read, &base, &right, 1024, 512, 4096, 0, &mut runs), Ok(()));
    assert_eq!(runs, vec![DataRun { vcn_start: 8, length: 2, lcn: 0x20, is_sparse: false }]);
}

#[test]
fn missing_vcn_is_fatal_in_logical_read() {
    let img = vec![0u8; 16 * 4096];
    let runs = vec![DataRun { vcn_start: 0, length: 2, lcn: 1, is_sparse: false }];
    assert_eq!(read_logical_mft(&reader(&img), &runs, 4096, 0, 2 * 4096, 16), Err(ExtractError::MissingVcn));
}

#[test]
fn sparse_run_reads_as_zeros() {
    let img = vec![0xFFu8; 16 * 4096];
    let runs = vec![
        DataRun { vcn_start: 0, length: 1, lcn: 0, is_sparse: true },
        DataRun { vcn_start: 1, length: 1, lcn: 3, is_sparse: false },
    ];
    let data = read_logical_mft(&reader(&img), &runs, 4096, 0, 4090, 12).unwrap();
    assert_eq!(data, vec![0, 0, 0, 0, 0, 0, 0xFF, 0xFF, 0xFF, 0xFF, 0xFF, 0xFF]);
}

#[test]
fn unknown_record_size_is_rejected() {
    let mut b = boot(512, 8, 4);
    b.clusters_per_file_record_segment = 0;
    assert_eq!(validate_vbr(&b), Err(VbrError::UnknownRecordSize));
}
