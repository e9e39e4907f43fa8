//! Finding the NTFS volume on a disk: superfloppy, MBR with its EBR chain, and GPT, at each
//! candidate logical sector size.
use vstd::prelude::*;
use crate::bytes::{le32, le64, read_u32_le, read_u64_le};
use crate::boot::{NtfsBootSector, decode_boot, has_ntfs_oem, valid_sector_size, validate_vbr};

verus! {

/// The MBR/EBR boot signature `0x55 0xAA` stands at `off`.
pub open spec fn boot_signature_at(s: Seq<u8>, off: int) -> bool {
    0 <= off && off + 2 <= s.len() && s[off] == 0x55 && s[off + 1] == 0xAA
}

/// `vbr`, read at a candidate offset with logical sector size `sector_size`, is an NTFS boot
/// sector for that sector size: OEM id, trailing signature (or the legacy one at 510 when
/// sectors are larger than 512 bytes), fields that pass validation, and a declared
/// sector size equal to `sector_size`.
pub open spec fn vbr_acceptable(vbr: Seq<u8>, sector_size: nat) -> bool {
    &&& valid_sector_size(sector_size as int)
    &&& vbr.len() == sector_size
    &&& has_ntfs_oem(vbr)
    &&& (boot_signature_at(vbr, sector_size - 2) || (sector_size > 512 && boot_signature_at(vbr, 510)))
    &&& match decode_boot(vbr) {
        Some(b) => b.bytes_per_sector == sector_size && b.spec_validate() is Ok,
        None => false,
    }
}

fn has_boot_signature(s: &[u8], off: usize) -> (r: bool)
    ensures
        r == boot_signature_at(s@, off as int),
{
    off <= s.len() && s.len() - off >= 2 && s[off] == 0x55 && s[off + 1] == 0xAA
}

/// Whether a sector read at a candidate offset is an acceptable NTFS boot sector for the
/// logical sector size `sector_size`.
pub fn check_vbr_bytes(vbr: &[u8], sector_size: u64) -> (r: bool)
    ensures
        r == vbr_acceptable(vbr@, sector_size as nat),
{
    if sector_size != 512 && sector_size != 1024 && sector_size != 2048 && sector_size != 4096 {
        return false;
    }
    if vbr.len() as u64 != sector_size {
        return false;
    }
    let sz = vbr.len();
    let boot = match NtfsBootSector::parse(vbr) {
        Some(b) => b,
        None => {
            return false;
        },
    };
    let valid_sig = has_boot_signature(vbr, sz - 2) || (sz > 512 && has_boot_signature(vbr, 510));
    if !valid_sig {
        return false;
    }
    if boot.bytes_per_sector as u64 != sector_size {
        return false;
    }
    validate_vbr(&boot).is_ok()
}

/// The `n` bytes of `disk` at `o`, if they lie on it.
pub open spec fn disk_read(disk: Seq<u8>, o: int, n: int) -> Option<Seq<u8>> {
    if 0 <= o && 0 <= n && o + n <= disk.len() {
        Some(disk.subrange(o, o + n))
    } else {
        None
    }
}

/// `read` reads from `disk`: it returns exactly the requested bytes when they lie on the
/// disk, and nothing when they do not.
pub open spec fn reads_disk<F: Fn(u64, usize) -> Option<Vec<u8>>>(read: &F, disk: Seq<u8>) -> bool {
    forall|o: u64, n: usize, res: Option<Vec<u8>>|
        #[trigger] read.ensures((o, n), res) ==> match res {
            Some(v) => disk_read(disk, o as int, n as int) == Some(v@),
            None => disk_read(disk, o as int, n as int) is None,
        }
}

/// The disk holds an acceptable NTFS boot sector at `off` for sector size `ss`.
pub open spec fn vbr_at(disk: Seq<u8>, off: int, ss: int) -> bool {
    match disk_read(disk, off, ss) {
        Some(v) => vbr_acceptable(v, ss as nat),
        None => false,
    }
}

/// Reads `len` bytes at `offset` through `read`, refusing a result of the wrong length.
pub fn read_exact_at<F: Fn(u64, usize) -> Option<Vec<u8>>>(read: &F, offset: u64, len: usize) -> (r: Option<Vec<u8>>)
    requires
        forall|o: u64, n: usize| read.requires((o, n)),
    ensures
        r matches Some(v) ==> v@.len() == len && read.ensures((offset, len), Some(v)),
        forall|disk: Seq<u8>|
            #[trigger] reads_disk(read, disk) ==> match r {
                Some(v) => disk_read(disk, offset as int, len as int) == Some(v@),
                None => disk_read(disk, offset as int, len as int) is None,
            },
{
    let res = read(offset, len);
    assert(read.ensures((offset, len), res));
    match res {
        Some(v) => {
            if v.len() == len {
                Some(v)
            } else {
                None
            }
        },
        None => None,
    }
}

/// Some read of `sector_size` bytes at `offset` returned an acceptable NTFS boot sector.
pub open spec fn vbr_seen<F: Fn(u64, usize) -> Option<Vec<u8>>>(read: &F, offset: u64, sector_size: u64) -> bool {
    exists|v: Vec<u8>|
        read.ensures((offset, sector_size as usize), Some(v)) && vbr_acceptable(v@, sector_size as nat)
}

/// Reads one logical sector at `offset` and checks it as an NTFS boot sector.
pub fn check_vbr_strict<F: Fn(u64, usize) -> Option<Vec<u8>>>(read: &F, offset: u64, sector_size: u64) -> (r: bool)
    requires
        forall|o: u64, n: usize| read.requires((o, n)),
    ensures
        r ==> vbr_seen(read, offset, sector_size),
        r ==> valid_sector_size(sector_size as int),
        forall|disk: Seq<u8>| #[trigger] reads_disk(read, disk) ==> r == vbr_at(disk, offset as int, sector_size as int),
{
    if sector_size < 512 || sector_size > 4096 {
        return false;
    }
    match read_exact_at(read, offset, sector_size as usize) {
        None => false,
        Some(v) => {
            let ok = check_vbr_bytes(v.as_slice(), sector_size);
            if ok {
                assert(read.ensures((offset, sector_size as usize), Some(v)) && vbr_acceptable(v@, sector_size as nat));
            }
            ok
        },
    }
}

/// A partition table entry: its type byte and its starting LBA.
#[derive(Debug, Clone, Copy, PartialEq, Eq, Structural)]
pub struct PartitionEntry {
    pub part_type: u8,
    pub lba_start: u32,
}

/// Entry `i` (0..4) of the partition table of an MBR or EBR sector.
pub open spec fn partition_entry_spec(s: Seq<u8>, i: int) -> PartitionEntry {
    PartitionEntry { part_type: s[446 + 16 * i + 4], lba_start: le32(s, 446 + 16 * i + 8) }
}

/// Decodes entry `i` of the partition table of an MBR or EBR sector.
pub fn partition_entry(sector: &[u8], i: usize) -> (r: PartitionEntry)
    requires
        i < 4,
        sector@.len() >= 512,
    ensures
        r == partition_entry_spec(sector@, i as int),
{
    let off = 446 + 16 * i;
    PartitionEntry { part_type: sector[off + 4], lba_start: read_u32_le(sector, off + 8) }
}

/// The location of a GPT partition entry array.
#[derive(Debug, Clone, Copy, PartialEq, Eq, Structural)]
pub struct GptTable {
    pub table_offset: u64,
    pub num_entries: u32,
    pub entry_size: u32,
}

/// The `"EFI PART"` magic of a GPT header.
pub open spec fn gpt_magic() -> Seq<u8> {
    seq![0x45u8, 0x46u8, 0x49u8, 0x20u8, 0x50u8, 0x41u8, 0x52u8, 0x54u8]
}

/// The entry array that a GPT header describes, when the header carries the magic and
/// sane entry counts and sizes, and the array's byte offset fits in 64 bits.
pub open spec fn gpt_table_spec(h: Seq<u8>, sector_size: nat) -> Option<GptTable> {
    if h.len() < 0x58 || h.subrange(0, 8) != gpt_magic() {
        None
    } else {
        let lba = le64(h, 0x48);
        let num = le32(h, 0x50);
        let size = le32(h, 0x54);
        if size < 128 || size > 4096 || num == 0 || num > 4096 || lba * sector_size > u64::MAX {
            None
        } else {
            Some(GptTable { table_offset: (lba * sector_size) as u64, num_entries: num, entry_size: size })
        }
    }
}

/// Decodes a GPT header sector.
pub fn gpt_table(header: &[u8], sector_size: u64) -> (r: Option<GptTable>)
    ensures
        r == gpt_table_spec(header@, sector_size as nat),
{
    if header.len() < 0x58 {
        return None;
    }
    let magic: [u8; 8] = [0x45, 0x46, 0x49, 0x20, 0x50, 0x41, 0x52, 0x54];
    assert(magic@ == gpt_magic());
    let mut i: usize = 0;
    while i < 8
        invariant
            i <= 8,
            header@.len() >= 0x58,
            magic@ == gpt_magic(),
            forall|j: int| 0 <= j < i ==> header@[j] == gpt_magic()[j],
        decreases 8 - i,
    {
        if header[i] != magic[i] {
            assert(header@.subrange(0, 8)[i as int] != gpt_magic()[i as int]);
            return None;
        }
        i = i + 1;
    }
    assert(header@.subrange(0, 8) =~= gpt_magic());
    let lba = read_u64_le(header, 0x48);
    let num = read_u32_le(header, 0x50);
    let size = read_u32_le(header, 0x54);
    if size < 128 || size > 4096 || num == 0 || num > 4096 {
        return None;
    }
    match lba.checked_mul(sector_size) {
        None => None,
        Some(t) => Some(GptTable { table_offset: t, num_entries: num, entry_size: size }),
    }
}

/// The first LBA of a GPT partition entry, unless its type GUID is all zeros (unused).
pub open spec fn gpt_entry_lba_spec(e: Seq<u8>) -> Option<u64> {
    if (forall|j: int| 0 <= j < 16 ==> e[j] == 0) {
        None
    } else {
        Some(le64(e, 0x20))
    }
}

pub fn gpt_entry_lba(entry: &[u8]) -> (r: Option<u64>)
    requires
        entry@.len() >= 0x28,
    ensures
        r == gpt_entry_lba_spec(entry@),
{
    let mut j: usize = 0;
    while j < 16
        invariant
            j <= 16,
            entry@.len() >= 0x28,
            forall|k: int| 0 <= k < j ==> entry@[k] == 0,
        decreases 16 - j,
    {
        if entry[j] != 0 {
            return Some(read_u64_le(entry, 0x20));
        }
        j = j + 1;
    }
    None
}


/// A partition type that denotes an extended partition (CHS, LBA or Linux).
pub open spec fn is_extended(t: u8) -> bool {
    t == 0x05 || t == 0x0F || t == 0x85
}

/// The EBR chain of the extended partition at `base`, from the EBR at `cur` after `depth`
/// hops: the first logical partition that holds an NTFS volume, if any. Each EBR must carry
/// the boot signature; its first entry locates a logical partition relative to `cur`, its
/// second the next EBR relative to `base`; the walk stops after 128 hops.
pub open spec fn ebr_from(disk: Seq<u8>, base: int, cur: int, ss: int, depth: nat) -> Option<u64>
    decreases 128 - depth,
{
    if depth >= 128 {
        None
    } else if cur * ss > u64::MAX || cur * ss == 0 {
        None
    } else {
        match disk_read(disk, cur * ss, ss) {
            None => None,
            Some(e) => if !boot_signature_at(e, 510) {
                None
            } else {
                let le = partition_entry_spec(e, 0);
                let log_lba = cur + le.lba_start;
                let ne = partition_entry_spec(e, 1);
                let next = base + ne.lba_start;
                if le.part_type != 0 && (log_lba > u64::MAX || log_lba * ss > u64::MAX || log_lba * ss == 0) {
                    None
                } else if le.part_type != 0 && vbr_at(disk, log_lba * ss, ss) {
                    Some((log_lba * ss) as u64)
                } else if ne.part_type == 0 || next > u64::MAX || next == 0 {
                    None
                } else {
                    ebr_from(disk, base, next, ss, depth + 1)
                }
            },
        }
    }
}

/// The GPT entries from `k` on: the first used entry whose first LBA holds an NTFS volume.
pub open spec fn gpt_from(disk: Seq<u8>, t: GptTable, ss: int, k: int) -> Option<u64>
    decreases t.num_entries - k,
{
    if k >= t.num_entries || k < 0 {
        None
    } else if t.table_offset + k * t.entry_size > u64::MAX {
        None
    } else {
        match disk_read(disk, t.table_offset + k * t.entry_size, t.entry_size as int) {
            None => None,
            Some(en) => match gpt_entry_lba_spec(en) {
                Some(lba) => if lba * ss <= u64::MAX && vbr_at(disk, lba * ss, ss) {
                    Some((lba * ss) as u64)
                } else {
                    gpt_from(disk, t, ss, k + 1)
                },
                None => gpt_from(disk, t, ss, k + 1),
            },
        }
    }
}

/// The GPT at LBA 1: its first used entry that holds an NTFS volume.
pub open spec fn gpt_scan(disk: Seq<u8>, ss: int) -> Option<u64> {
    match disk_read(disk, ss, ss) {
        None => None,
        Some(h) => match gpt_table_spec(h, ss as nat) {
            None => None,
            Some(t) => gpt_from(disk, t, ss, 0),
        },
    }
}

/// MBR entries from `i` on: a protective entry (`0xEE`) only notes that a GPT is likely; an
/// extended entry is followed through its EBR chain; any other used entry is probed at its
/// start. After the four entries the GPT is scanned if it is likely.
pub open spec fn mbr_from(disk: Seq<u8>, s0: Seq<u8>, ss: int, i: int, has_gpt: bool) -> Option<u64>
    decreases 4 - i,
{
    if i >= 4 || i < 0 {
        if has_gpt {
            gpt_scan(disk, ss)
        } else {
            None
        }
    } else {
        let e = partition_entry_spec(s0, i);
        if e.part_type == 0xEE {
            mbr_from(disk, s0, ss, i + 1, true)
        } else if is_extended(e.part_type) {
            match ebr_from(disk, e.lba_start as int, e.lba_start as int, ss, 0) {
                Some(o) => Some(o),
                None => mbr_from(disk, s0, ss, i + 1, has_gpt),
            }
        } else if e.part_type != 0 && e.lba_start * ss != 0 && vbr_at(disk, e.lba_start * ss, ss) {
            Some((e.lba_start * ss) as u64)
        } else {
            mbr_from(disk, s0, ss, i + 1, has_gpt)
        }
    }
}

/// The partition tables read with sector size `ss`: the MBR at sector 0 (with its boot
/// signature), its EBR chains, and the GPT.
pub open spec fn scan_tables(disk: Seq<u8>, ss: int) -> Option<u64> {
    match disk_read(disk, 0, ss) {
        None => None,
        Some(s0) => if !boot_signature_at(s0, 510) {
            None
        } else {
            mbr_from(disk, s0, ss, 0, false)
        },
    }
}

pub open spec fn candidate_sector_size(k: int) -> int {
    if k == 0 {
        512
    } else if k == 1 {
        1024
    } else if k == 2 {
        2048
    } else {
        4096
    }
}

/// The search from the `k`-th candidate sector size on: superfloppy first, then the tables.
pub open spec fn locate_from(disk: Seq<u8>, k: int) -> Result<u64, NoNtfsPartition>
    decreases 4 - k,
{
    if k >= 4 || k < 0 {
        Err(NoNtfsPartition)
    } else if vbr_at(disk, 0, candidate_sector_size(k)) {
        Ok(0)
    } else {
        match scan_tables(disk, candidate_sector_size(k)) {
            Some(o) => Ok(o),
            None => locate_from(disk, k + 1),
        }
    }
}

/// Where the NTFS volume of `disk` lies, trying logical sectors of 512, 1024, 2048 and 4096
/// bytes in turn.
pub open spec fn locate_spec(disk: Seq<u8>) -> Result<u64, NoNtfsPartition> {
    locate_from(disk, 0)
}

/// No NTFS volume was found under any sector size and any partitioning scheme.
#[derive(Debug, Clone, Copy, PartialEq, Eq, Structural)]
pub struct NoNtfsPartition;

/// The limit on EBR hops, a defence against cycles in the chain.
pub const MAX_EBR_HOPS: u32 = 128;

/// Walks the EBR chain of an extended partition that starts at `ext_base_lba`, looking for
/// a logical partition that holds an NTFS volume.
fn scan_ebr_chain<F: Fn(u64, usize) -> Option<Vec<u8>>>(read: &F, ext_base_lba: u64, ss: u64) -> (r: Option<u64>)
    requires
        forall|o: u64, n: usize| read.requires((o, n)),
        valid_sector_size(ss as int),
    ensures
        r matches Some(off) ==> vbr_seen(read, off, ss),
        forall|disk: Seq<u8>|
            #[trigger] reads_disk(read, disk) ==> r == ebr_from(
                disk,
                ext_base_lba as int,
                ext_base_lba as int,
                ss as int,
                0,
            ),
{
    let ghost base = ext_base_lba as int;
    let mut current_ebr_lba = ext_base_lba;
    let mut depth: u32 = 0;
    while depth < MAX_EBR_HOPS
        invariant_except_break
            forall|disk: Seq<u8>|
                #[trigger] reads_disk(read, disk) ==> ebr_from(disk, base, base, ss as int, 0) == ebr_from(
                    disk,
                    base,
                    current_ebr_lba as int,
                    ss as int,
                    depth as nat,
                ),
        invariant
            forall|o: u64, n: usize| read.requires((o, n)),
            valid_sector_size(ss as int),
            base == ext_base_lba as int,
            depth <= MAX_EBR_HOPS,
        ensures
            forall|disk: Seq<u8>|
                #[trigger] reads_disk(read, disk) ==> ebr_from(disk, base, base, ss as int, 0) == ebr_from(
                    disk,
                    base,
                    current_ebr_lba as int,
                    ss as int,
                    depth as nat,
                ),
            depth >= MAX_EBR_HOPS,
        decreases MAX_EBR_HOPS - depth,
    {
        let cur = current_ebr_lba;
        let ghost d = depth as nat;
        let ebr_offset = match cur.checked_mul(ss) {
            Some(v) if v != 0 => v,
            _ => {
                return None;
            },
        };
        let ebr = match read_exact_at(read, ebr_offset, ss as usize) {
            Some(v) => v,
            None => {
                return None;
            },
        };
        if !has_boot_signature(ebr.as_slice(), 510) {
            return None;
        }
        let logical = partition_entry(ebr.as_slice(), 0);
        let next = partition_entry(ebr.as_slice(), 1);
        if logical.part_type != 0 {
            let log_lba = match cur.checked_add(logical.lba_start as u64) {
                Some(v) => v,
                None => {
                    return None;
                },
            };
            let log_offset = match log_lba.checked_mul(ss) {
                Some(v) if v != 0 => v,
                _ => {
                    return None;
                },
            };
            if check_vbr_strict(read, log_offset, ss) {
                return Some(log_offset);
            }
        }
        if next.part_type == 0 {
            return None;
        }
        current_ebr_lba = match ext_base_lba.checked_add(next.lba_start as u64) {
            Some(v) if v != 0 => v,
            _ => {
                return None;
            },
        };
        depth = depth + 1;
    }
    None
}

/// Scans a GPT partition entry array for an NTFS volume.
fn scan_gpt<F: Fn(u64, usize) -> Option<Vec<u8>>>(read: &F, ss: u64) -> (r: Option<u64>)
    requires
        forall|o: u64, n: usize| read.requires((o, n)),
        valid_sector_size(ss as int),
    ensures
        r matches Some(off) ==> vbr_seen(read, off, ss),
        forall|disk: Seq<u8>| #[trigger] reads_disk(read, disk) ==> r == gpt_scan(disk, ss as int),
{
    let header = match read_exact_at(read, ss, ss as usize) {
        Some(v) => v,
        None => {
            return None;
        },
    };
    let table = match gpt_table(header.as_slice(), ss) {
        Some(t) => t,
        None => {
            return None;
        },
    };
    let mut k: u32 = 0;
    while k < table.num_entries
        invariant_except_break
            forall|disk: Seq<u8>|
                #[trigger] reads_disk(read, disk) ==> gpt_scan(disk, ss as int) == gpt_from(disk, table, ss as int, k as int),
        invariant
            forall|o: u64, n: usize| read.requires((o, n)),
            valid_sector_size(ss as int),
            128 <= table.entry_size <= 4096,
            gpt_table_spec(header@, ss as nat) == Some(table),
            forall|disk: Seq<u8>| #[trigger] reads_disk(read, disk) ==> disk_read(disk, ss as int, ss as int) == Some(header@),
        ensures
            forall|disk: Seq<u8>|
                #[trigger] reads_disk(read, disk) ==> gpt_scan(disk, ss as int) == gpt_from(disk, table, ss as int, k as int),
            k >= table.num_entries,
        decreases table.num_entries - k,
    {
        let entry_offset = match (k as u64).checked_mul(table.entry_size as u64) {
            Some(rel) => match table.table_offset.checked_add(rel) {
                Some(v) => v,
                None => {
                    return None;
                },
            },
            None => {
                return None;
            },
        };
        let entry = match read_exact_at(read, entry_offset, table.entry_size as usize) {
            Some(v) => v,
            None => {
                return None;
            },
        };
        if let Some(first_lba) = gpt_entry_lba(entry.as_slice()) {
            if let Some(part_offset) = first_lba.checked_mul(ss) {
                if check_vbr_strict(read, part_offset, ss) {
                    return Some(part_offset);
                }
            }
        }
        k = k + 1;
    }
    None
}

/// Scans the MBR (and the EBR chains and GPT that it leads to) for an NTFS volume,
/// with logical sectors of `sector_size` bytes.
fn scan_partition_tables<F: Fn(u64, usize) -> Option<Vec<u8>>>(read: &F, ss: u64) -> (r: Option<u64>)
    requires
        forall|o: u64, n: usize| read.requires((o, n)),
        valid_sector_size(ss as int),
    ensures
        r matches Some(off) ==> vbr_seen(read, off, ss),
        forall|disk: Seq<u8>| #[trigger] reads_disk(read, disk) ==> r == scan_tables(disk, ss as int),
{
    let sector0 = match read_exact_at(read, 0, ss as usize) {
        Some(v) => v,
        None => {
            return None;
        },
    };
    if !has_boot_signature(sector0.as_slice(), 510) {
        return None;
    }
    let mut has_gpt = false;
    let mut i: usize = 0;
    while i < 4
        invariant_except_break
            forall|disk: Seq<u8>|
                #[trigger] reads_disk(read, disk) ==> scan_tables(disk, ss as int) == mbr_from(
                    disk,
                    sector0@,
                    ss as int,
                    i as int,
                    has_gpt,
                ),
        invariant
            forall|o: u64, n: usize| read.requires((o, n)),
            valid_sector_size(ss as int),
            sector0@.len() == ss,
            i <= 4,
        ensures
            forall|disk: Seq<u8>|
                #[trigger] reads_disk(read, disk) ==> scan_tables(disk, ss as int) == mbr_from(
                    disk,
                    sector0@,
                    ss as int,
                    i as int,
                    has_gpt,
                ),
            i >= 4,
        decreases 4 - i,
    {
        let entry = partition_entry(sector0.as_slice(), i);
        let t = entry.part_type;
        if t == 0xEE {
            has_gpt = true;
        } else if t == 0x05 || t == 0x0F || t == 0x85 {
            if let Some(off) = scan_ebr_chain(read, entry.lba_start as u64, ss) {
                return Some(off);
            }
        } else if t != 0 {
            let start = entry.lba_start as u64 * ss;
            if start != 0 && check_vbr_strict(read, start, ss) {
                return Some(start);
            }
        }
        i = i + 1;
    }
    if has_gpt {
        scan_gpt(read, ss)
    } else {
        None
    }
}

/// Returns the byte offset of the NTFS boot sector on a disk read through `read`
/// (`read(offset, len)` returns `len` bytes at `offset`, or `None`), trying logical sectors
/// of 512, 1024, 2048 and 4096 bytes in turn, each as a superfloppy, then through the
/// MBR, its EBR chains and, if the MBR is protective, the GPT. When `read` reads a disk,
/// the result is exactly the one that the search over that disk gives.
pub fn find_ntfs_partition<F: Fn(u64, usize) -> Option<Vec<u8>>>(read: &F) -> (r: Result<u64, NoNtfsPartition>)
    requires
        forall|o: u64, n: usize| read.requires((o, n)),
    ensures
        r matches Ok(off) ==> exists|ss: u64| valid_sector_size(ss as int) && vbr_seen(read, off, ss),
        forall|disk: Seq<u8>| #[trigger] reads_disk(read, disk) ==> r == locate_spec(disk),
{
    let sizes: [u64; 4] = [512, 1024, 2048, 4096];
    let mut k: usize = 0;
    while k < 4
        invariant_except_break
            forall|disk: Seq<u8>| #[trigger] reads_disk(read, disk) ==> locate_spec(disk) == locate_from(disk, k as int),
        invariant
            forall|o: u64, n: usize| read.requires((o, n)),
            sizes@ == seq![512u64, 1024u64, 2048u64, 4096u64],
            k <= 4,
        ensures
            forall|disk: Seq<u8>| #[trigger] reads_disk(read, disk) ==> locate_spec(disk) == locate_from(disk, k as int),
            k >= 4,
        decreases 4 - k,
    {
        let sector_size = sizes[k];
        assert(sector_size as int == candidate_sector_size(k as int));
        if check_vbr_strict(read, 0, sector_size) {
            return Ok(0);
        }
        if let Some(off) = scan_partition_tables(read, sector_size) {
            return Ok(off);
        }
        k = k + 1;
    }
    Err(NoNtfsPartition)
}
} // verus!
