//! Reconstructing the `$MFT` runlist from a raw volume.
use vstd::prelude::*;
use crate::attrs::{
    AttrHeader, ATTR_ATTRIBUTE_LIST, ATTR_DATA, attr_list_entry, attr_list_entry_spec, attribute_headers,
    non_resident_header, non_resident_spec, ref_entry, ref_seq, reference_entry, reference_sequence, walk_attrs,
};
use crate::boot::{NtfsBootSector, VbrError, decode_boot, valid_sector_size, validate_vbr};
use crate::bytes::{le16, le32, read_u16_le, read_u32_le};
use crate::fixup::{FixupResult, apply_fixups, fixup_spec};
use crate::locate::{disk_read, find_ntfs_partition, locate_spec, read_exact_at, reads_disk, vbr_seen, NoNtfsPartition};
use crate::record::{MftRecordHeader, RecordError, decode_header, record_boundaries, validate_record_boundaries};
use crate::runlist::{
    decode_runs, DataRun, RunlistError, assemble_runlist, clusters_before, parse_data_runs, runlist_accepted, sorted_by_vcn,
};

verus! {

/// Why extraction of the `$MFT` stopped.
#[derive(Debug, Clone, Copy, PartialEq, Eq, Structural)]
pub enum ExtractError {
    NoNtfsPartition,
    /// A read returned nothing or fewer bytes than asked.
    ReadFailed,
    BadBootSector,
    Vbr(VbrError),
    /// An offset or a size does not fit in 64 bits.
    Overflow,
    /// A record's signature is not recognised.
    BadRecordHeader,
    Record(RecordError),
    FixupFailed,
    /// An attribute has a zero length or runs past the used part of its record.
    MalformedAttribute,
    /// An attribute is too short for the fields that are read from it.
    AttributeTooShort,
    /// A resident `$ATTRIBUTE_LIST` value runs past its attribute.
    AttributeListOutOfBounds,
    /// An `$ATTRIBUTE_LIST` entry's name runs past the entry.
    AttributeListNameOutOfBounds,
    /// A mapping-pairs offset below the non-resident header or past the attribute.
    BadRunsOffset,
    Runlist(RunlistError),
    /// A non-resident `$ATTRIBUTE_LIST` covers fewer bytes than its actual size.
    AttributeListShort,
    /// A non-resident `$ATTRIBUTE_LIST` is empty or larger than 1 MiB.
    AttributeListSize,
    /// Record 0 holds no runs for its unnamed `$DATA`.
    NoBaseRuns,
    /// An extent record's sequence number is not the one that the list expects.
    SequenceMismatch,
    /// A logical offset falls in no run.
    MissingVcn,
    /// The runs do not cover a whole number of records.
    PartialRecord,
}

/// The run that covers virtual cluster `vcn`.
pub open spec fn run_covers(r: DataRun, vcn: int) -> bool {
    r.vcn_start <= vcn < r.vcn_start + r.length
}

pub open spec fn vcn_covered(runs: Seq<DataRun>, vcn: int) -> bool {
    exists|i: int| 0 <= i < runs.len() && run_covers(runs[i], vcn)
}

/// Byte `k` of a stream read from logical offset `base` lies in a cluster that some run covers.
pub open spec fn byte_mapped(runs: Seq<DataRun>, bpc: int, base: int, k: int) -> bool {
    vcn_covered(runs, (base + k) / bpc)
}

/// The index of the first run from `i` on that covers `vcn`, or -1.
pub open spec fn first_run(runs: Seq<DataRun>, vcn: int, i: int) -> int
    decreases runs.len() - i,
{
    if i >= runs.len() || i < 0 {
        -1
    } else if run_covers(runs[i], vcn) {
        i
    } else {
        first_run(runs, vcn, i + 1)
    }
}

/// Byte `k` of the stream read from logical offset `base` on `disk`: zero in a sparse run,
/// else the disk byte at `partition_offset + (lcn + vcn - vcn_start) * bpc + offset in
/// cluster`, using the first run that covers the byte's cluster. `None` when no run covers
/// it or the byte lies off the disk or past the 64-bit offset range.
pub open spec fn stream_byte(
    disk: Seq<u8>,
    runs: Seq<DataRun>,
    bpc: int,
    partition_offset: int,
    base: int,
    k: int,
) -> Option<u8> {
    let x = base + k;
    let vcn = x / bpc;
    let i = first_run(runs, vcn, 0);
    if i < 0 {
        None
    } else if runs[i].is_sparse {
        Some(0)
    } else {
        let phys = partition_offset + (runs[i].lcn + (vcn - runs[i].vcn_start)) * bpc + x % bpc;
        if phys >= u64::MAX || phys >= disk.len() {
            None
        } else {
            Some(disk[phys])
        }
    }
}

/// The whole range reads from `disk`: it stays inside 64-bit offsets and every byte of it
/// is mapped and lies on the disk.
pub open spec fn stream_readable(
    disk: Seq<u8>,
    runs: Seq<DataRun>,
    bpc: int,
    partition_offset: int,
    base: int,
    len: int,
) -> bool {
    &&& base + len <= u64::MAX
    &&& forall|k: int| 0 <= k < len ==> #[trigger] stream_byte(disk, runs, bpc, partition_offset, base, k) is Some
}

/// The `len` bytes of the stream from `base` on `disk` (meaningful when they are readable).
pub open spec fn stream_bytes(
    disk: Seq<u8>,
    runs: Seq<DataRun>,
    bpc: int,
    partition_offset: int,
    base: int,
    len: int,
) -> Seq<u8> {
    Seq::new(len as nat, |k: int| stream_byte(disk, runs, bpc, partition_offset, base, k)->Some_0)
}

/// Byte `k` of the stream from `base` lies in a sparse run (the first run covering it).
pub open spec fn sparse_byte(runs: Seq<DataRun>, bpc: int, base: int, k: int) -> bool {
    first_run(runs, (base + k) / bpc, 0) >= 0 && runs[first_run(runs, (base + k) / bpc, 0)].is_sparse
}

proof fn lemma_byte_in_chunk(pos: int, bpc: int, target: int, oic: int, j: int)
    requires
        bpc > 0,
        pos == bpc * target + oic,
        0 <= oic,
        0 <= j,
        oic + j < bpc,
    ensures
        (pos + j) / bpc == target,
        (pos + j) % bpc == oic + j,
{
    assert(target * bpc == bpc * target) by (nonlinear_arith);
    vstd::arithmetic::div_mod::lemma_fundamental_div_mod_converse(pos + j, bpc, target, oic + j);
}

/// The index of the first run that covers `vcn`.
pub fn find_run(runs: &Vec<DataRun>, vcn: u64) -> (r: Option<usize>)
    ensures
        r matches Some(i) ==> i < runs@.len() && run_covers(runs@[i as int], vcn as int) && i == first_run(
            runs@,
            vcn as int,
            0,
        ),
        r is None ==> !vcn_covered(runs@, vcn as int) && first_run(runs@, vcn as int, 0) == -1,
{
    let mut i: usize = 0;
    while i < runs.len()
        invariant
            i <= runs@.len(),
            first_run(runs@, vcn as int, 0) == first_run(runs@, vcn as int, i as int),
            forall|k: int| 0 <= k < i ==> !run_covers(runs@[k], vcn as int),
        decreases runs@.len() - i,
    {
        let r = runs[i];
        if r.vcn_start <= vcn && (vcn as u128) < r.vcn_start as u128 + r.length as u128 {
            return Some(i);
        }
        i = i + 1;
    }
    None
}

/// Reads `len` bytes of a non-resident stream from logical offset `logical_offset`, mapping
/// each cluster through `runs`; sparse runs read as zeros. Fails on a cluster that no run
/// covers, a failed read or an offset that overflows.
pub fn read_logical_mft<F: Fn(u64, usize) -> Option<Vec<u8>>>(
    read: &F,
    runs: &Vec<DataRun>,
    bpc: u64,
    partition_offset: u64,
    logical_offset: u64,
    len: usize,
) -> (r: Result<Vec<u8>, ExtractError>)
    requires
        forall|o: u64, n: usize| read.requires((o, n)),
        bpc > 0,
    ensures
        r matches Ok(v) ==> v@.len() == len && forall|k: int|
            0 <= k < len ==> byte_mapped(runs@, bpc as int, logical_offset as int, k),
        r matches Err(e) ==> e == ExtractError::MissingVcn || e == ExtractError::Overflow || e
            == ExtractError::ReadFailed,
        r matches Ok(v) ==> forall|disk: Seq<u8>|
            #[trigger] reads_disk(read, disk) ==> forall|k: int|
                0 <= k < len ==> #[trigger] stream_byte(disk, runs@, bpc as int, partition_offset as int, logical_offset as int, k)
                    == Some(v@[k]),
        forall|disk: Seq<u8>|
            #[trigger] reads_disk(read, disk) ==> (r is Ok <==> stream_readable(
                disk,
                runs@,
                bpc as int,
                partition_offset as int,
                logical_offset as int,
                len as int,
            )),
        (logical_offset + len <= u64::MAX && forall|k: int|
            0 <= k < len ==> #[trigger] sparse_byte(runs@, bpc as int, logical_offset as int, k)) ==> r is Ok,
        forall|disk: Seq<u8>|
            #[trigger] reads_disk(read, disk) ==> (r matches Ok(v) ==> v@ == stream_bytes(
                disk,
                runs@,
                bpc as int,
                partition_offset as int,
                logical_offset as int,
                len as int,
            )),
{
    let mut buf: Vec<u8> = Vec::new();
    let mut pos: u64 = logical_offset;
    while buf.len() < len
        invariant
            forall|o: u64, n: usize| read.requires((o, n)),
            bpc > 0,
            buf@.len() <= len,
            pos == logical_offset + buf@.len(),
            forall|k: int| 0 <= k < buf@.len() ==> byte_mapped(runs@, bpc as int, logical_offset as int, k),
            forall|disk: Seq<u8>|
                #[trigger] reads_disk(read, disk) ==> forall|k: int|
                    0 <= k < buf@.len() ==> #[trigger] stream_byte(disk, runs@, bpc as int, partition_offset as int, logical_offset as int, k)
                        == Some(buf@[k]),
        decreases len - buf@.len(),
    {
        let target_vcn = pos / bpc;
        let in_cluster = pos % bpc;
        proof {
            vstd::arithmetic::div_mod::lemma_fundamental_div_mod(pos as int, bpc as int);
            assert(pos == bpc * target_vcn + in_cluster);
        }
        let ghost got_len = buf@.len() as int;
        proof {
            lemma_byte_in_chunk(pos as int, bpc as int, target_vcn as int, in_cluster as int, 0);
        }
        let idx = match find_run(runs, target_vcn) {
            Some(i) => i,
            None => {
                proof {
                    assert(!sparse_byte(runs@, bpc as int, logical_offset as int, got_len));
                    assert forall|disk: Seq<u8>| #[trigger] reads_disk(read, disk) implies !stream_readable(
                        disk, runs@, bpc as int, partition_offset as int, logical_offset as int, len as int) by {
                        assert(stream_byte(disk, runs@, bpc as int, partition_offset as int, logical_offset as int, got_len) is None);
                    }
                }
                return Err(ExtractError::MissingVcn);
            },
        };
        let run = runs[idx];
        let room = bpc - in_cluster;
        let want = len - buf.len();
        let to_read: usize = if (want as u64) < room { want } else { room as usize };
        let ghost before = buf@;
        let ghost mut phys0: int = 0;
        if run.is_sparse {
            let mut j: usize = 0;
            while j < to_read
                invariant
                    buf@.len() == before.len() + j,
                    j <= to_read,
                    buf@.subrange(0, before.len() as int) == before,
                    forall|t: int| before.len() <= t < buf@.len() ==> buf@[t] == 0,
                decreases to_read - j,
            {
                buf.push(0);
                j = j + 1;
            }
        } else {
            let ghost phys_int = partition_offset + (run.lcn + (target_vcn - run.vcn_start)) * bpc + in_cluster;
            proof {
                assert(!sparse_byte(runs@, bpc as int, logical_offset as int, got_len));
                assert(forall|disk: Seq<u8>|
                    #[trigger] reads_disk(read, disk) ==> (phys_int >= u64::MAX ==> stream_byte(
                        disk,
                        runs@,
                        bpc as int,
                        partition_offset as int,
                        logical_offset as int,
                        got_len,
                    ) is None));
                assert((run.lcn + (target_vcn - run.vcn_start)) * bpc >= run.lcn + (target_vcn - run.vcn_start)) by (nonlinear_arith)
                    requires
                        bpc >= 1,
                        run.lcn + (target_vcn - run.vcn_start) >= 0,
                ;
            }
            let physical_cluster = match run.lcn.checked_add(target_vcn - run.vcn_start) {
                Some(v) => v,
                None => {
                    return Err(ExtractError::Overflow);
                },
            };
            let physical = match physical_cluster.checked_mul(bpc) {
                Some(v) => match v.checked_add(in_cluster) {
                    Some(w) => match w.checked_add(partition_offset) {
                        Some(x) => x,
                        None => {
                            return Err(ExtractError::Overflow);
                        },
                    },
                    None => {
                        return Err(ExtractError::Overflow);
                    },
                },
                None => {
                    return Err(ExtractError::Overflow);
                },
            };
            proof {
                lemma_byte_in_chunk(pos as int, bpc as int, target_vcn as int, in_cluster as int, to_read - 1);
                assert(forall|disk: Seq<u8>|
                    #[trigger] reads_disk(read, disk) ==> ((physical + to_read - 1 >= u64::MAX || physical + to_read - 1
                        >= disk.len()) ==> stream_byte(
                        disk,
                        runs@,
                        bpc as int,
                        partition_offset as int,
                        logical_offset as int,
                        got_len + to_read - 1,
                    ) is None));
            }
            if physical.checked_add(to_read as u64).is_none() {
                return Err(ExtractError::Overflow);
            }
            let mut chunk = match read_exact_at(read, physical, to_read) {
                Some(c) => c,
                None => {
                    return Err(ExtractError::ReadFailed);
                },
            };
            let ghost got = chunk@;
            buf.append(&mut chunk);
            proof {
                phys0 = physical as int;
                assert(buf@ == before + got);
                assert(physical + to_read <= u64::MAX);
            }
            assert(forall|disk: Seq<u8>| #[trigger] reads_disk(read, disk) ==> disk_read(disk, physical as int, to_read as int) == Some(got));
            assert(phys0 == (run.lcn + (target_vcn - run.vcn_start)) * bpc + in_cluster + partition_offset);
        }
        proof {
            assert(buf@.subrange(0, before.len() as int) =~= before);
            assert forall|k: int| 0 <= k < buf@.len() implies byte_mapped(runs@, bpc as int, logical_offset as int, k) by {
                if k >= before.len() {
                    let j = k - before.len();
                    assert(pos == bpc * target_vcn + in_cluster);
                    assert(target_vcn * bpc == bpc * target_vcn) by (nonlinear_arith);
                    assert(in_cluster + j < bpc);
                    vstd::arithmetic::div_mod::lemma_fundamental_div_mod_converse(
                        (logical_offset + k) as int,
                        bpc as int,
                        target_vcn as int,
                        (in_cluster + j) as int,
                    );
                    assert(run_covers(runs@[idx as int], target_vcn as int));
                } else {
                    assert(buf@[k] == before[k]);
                }
            }
            assert forall|disk: Seq<u8>| #[trigger] reads_disk(read, disk) implies forall|k: int|
                0 <= k < buf@.len() ==> #[trigger] stream_byte(disk, runs@, bpc as int, partition_offset as int, logical_offset as int, k)
                    == Some(buf@[k]) by {
                assert forall|k: int| 0 <= k < buf@.len() implies #[trigger] stream_byte(disk, runs@, bpc as int, partition_offset as int, logical_offset as int, k)
                    == Some(buf@[k]) by {
                    if k >= before.len() {
                        let j = k - before.len();
                        assert(target_vcn * bpc == bpc * target_vcn) by (nonlinear_arith);
                        vstd::arithmetic::div_mod::lemma_fundamental_div_mod_converse(
                            (logical_offset + k) as int,
                            bpc as int,
                            target_vcn as int,
                            (in_cluster + j) as int,
                        );
                        assert((logical_offset + k) / (bpc as int) == target_vcn);
                        assert((logical_offset + k) % (bpc as int) == in_cluster + j);
                        if !run.is_sparse {
                            assert(buf@[k] == disk[phys0 + j]);
                        }
                    } else {
                        assert(buf@[k] == before[k]);
                    }
                }
            }
        }
        pos = match pos.checked_add(to_read as u64) {
            Some(p) => p,
            None => {
                assert(logical_offset + len > u64::MAX);
                return Err(ExtractError::Overflow);
            },
        };
    }
    proof {
        assert forall|disk: Seq<u8>| #[trigger] reads_disk(read, disk) implies buf@ == stream_bytes(
            disk,
            runs@,
            bpc as int,
            partition_offset as int,
            logical_offset as int,
            len as int,
        ) by {
            assert(buf@ =~= stream_bytes(disk, runs@, bpc as int, partition_offset as int, logical_offset as int, len as int));
        }
    }
    Ok(buf)
}

} // verus!

verus! {

/// An extent record that holds part of the `$MFT`'s unnamed `$DATA`, as named by an
/// `$ATTRIBUTE_LIST` entry.
#[derive(Debug, Clone, Copy, PartialEq, Eq, Structural)]
pub struct ExtentTarget {
    pub start_vcn: u64,
    pub entry: u64,
    pub seq: u16,
}

pub open spec fn prepend_targets(
    prefix: Seq<ExtentTarget>,
    rest: Result<Seq<ExtentTarget>, ExtractError>,
) -> Result<Seq<ExtentTarget>, ExtractError> {
    match rest {
        Ok(r) => Ok(prefix + r),
        Err(e) => Err(e),
    }
}

/// The unnamed-`$DATA` entries of the attribute list at `off..end`, with a non-zero entry
/// number. The walk stops at a zero type or an entry that is too short or runs past `end`;
/// an entry whose UTF-16 name runs past the entry is an error.
pub open spec fn data_extents(s: Seq<u8>, off: int, end: int) -> Result<Seq<ExtentTarget>, ExtractError>
    decreases end - off,
{
    if off < 0 || off + 26 > end || end > s.len() {
        Ok(Seq::empty())
    } else {
        let e = attr_list_entry_spec(s, off);
        if e.attr_type == 0 || e.length < 26 || off + e.length > end {
            Ok(Seq::empty())
        } else if e.name_offset + 2 * e.name_len > e.length {
            Err(ExtractError::AttributeListNameOutOfBounds)
        } else {
            let here: Seq<ExtentTarget> = if e.attr_type == 0x80 && e.name_len == 0 && ref_entry(
                e.base_file_reference,
            ) != 0 {
                seq![
                    ExtentTarget {
                        start_vcn: e.start_vcn,
                        entry: ref_entry(e.base_file_reference),
                        seq: ref_seq(e.base_file_reference),
                    },
                ]
            } else {
                Seq::empty()
            };
            prepend_targets(here, data_extents(s, off + e.length, end))
        }
    }
}

proof fn lemma_prepend_targets(a: Seq<ExtentTarget>, b: Seq<ExtentTarget>, r: Result<Seq<ExtentTarget>, ExtractError>)
    ensures
        prepend_targets(a, prepend_targets(b, r)) == prepend_targets(a + b, r),
        prepend_targets(Seq::empty(), r) == r,
{
    match r {
        Ok(x) => {
            assert(a + (b + x) =~= (a + b) + x);
            assert(Seq::<ExtentTarget>::empty() + x =~= x);
        },
        Err(_) => {},
    }
}

proof fn lemma_data_extents_error(s: Seq<u8>, off: int, end: int)
    ensures
        data_extents(s, off, end) matches Err(e) ==> e == ExtractError::AttributeListNameOutOfBounds,
    decreases end - off,
{
    if !(off < 0 || off + 26 > end || end > s.len()) {
        let e = attr_list_entry_spec(s, off);
        if !(e.attr_type == 0 || e.length < 26 || off + e.length > end) {
            lemma_data_extents_error(s, off + e.length, end);
        }
    }
}

/// Collects, from the attribute list stored at `start..end` of `buf`, the extents that
/// hold unnamed `$DATA`, appending them to `out`.
pub fn collect_data_extents(buf: &[u8], start: usize, end: usize, out: &mut Vec<ExtentTarget>) -> (r: Result<
    (),
    ExtractError,
>)
    requires
        end <= buf@.len(),
    ensures
        r matches Err(e) ==> e == ExtractError::AttributeListNameOutOfBounds,
        prepend_targets(old(out)@, data_extents(buf@, start as int, end as int)) == match r {
            Ok(_) => Ok::<Seq<ExtentTarget>, ExtractError>(final(out)@),
            Err(e) => Err::<Seq<ExtentTarget>, ExtractError>(e),
        },
{
    let n = buf.len();
    let mut curr = start;
    proof {
        lemma_prepend_targets(Seq::empty(), Seq::empty(), data_extents(buf@, start as int, end as int));
    }
    loop
        invariant
            end <= buf@.len() == n,
            prepend_targets(old(out)@, data_extents(buf@, start as int, end as int)) == prepend_targets(
                out@,
                data_extents(buf@, curr as int, end as int),
            ),
        decreases end - curr,
    {
        if curr > end || end - curr < 26 {
            assert(out@ + Seq::empty() =~= out@);
            return Ok(());
        }
        let e = attr_list_entry(buf, curr);
        let elen = e.length as usize;
        if e.attr_type == 0 || elen < 26 || elen > end - curr {
            assert(out@ + Seq::empty() =~= out@);
            return Ok(());
        }
        if e.name_offset as usize + 2 * (e.name_len as usize) > elen {
            proof {
                lemma_data_extents_error(buf@, start as int, end as int);
            }
            return Err(ExtractError::AttributeListNameOutOfBounds);
        }
        let ghost before = out@;
        let entry = reference_entry(e.base_file_reference);
        if e.attr_type == ATTR_DATA && e.name_len == 0 && entry != 0 {
            out.push(
                ExtentTarget {
                    start_vcn: e.start_vcn,
                    entry,
                    seq: reference_sequence(e.base_file_reference),
                },
            );
        }
        proof {
            let here = if e.attr_type == 0x80 && e.name_len == 0 && entry != 0 {
                seq![out@.last()]
            } else {
                Seq::empty()
            };
            assert(before + here =~= out@);
            lemma_prepend_targets(before, here, data_extents(buf@, (curr + elen) as int, end as int));
        }
        curr = curr + elen;
    }
}

/// What extraction learns of the volume and of the `$MFT`'s layout on it.
#[derive(Debug, Clone)]
pub struct MftLayout {
    pub partition_offset: u64,
    pub boot: NtfsBootSector,
    pub record_size: usize,
    pub bytes_per_cluster: u64,
    /// The allocated size that record 0's unnamed `$DATA` declares (0 if none).
    pub allocated_size: u64,
    /// The runs of the `$MFT`, sorted by VCN, gap-free and overlap-free from VCN 0.
    pub runs: Vec<DataRun>,
    /// The size of the `$MFT` in bytes, as the runs cover it.
    pub total_bytes: u64,
}

/// The mapping-pairs offset of a non-resident attribute, checked to lie after the 64-byte
/// header and inside the attribute.
fn runs_start(a: &AttrHeader, runs_offset: u16) -> (r: Result<usize, ExtractError>)
    requires
        a.offset + a.length <= usize::MAX,
    ensures
        r matches Ok(p) ==> p == a.offset + runs_offset && runs_offset >= 0x40 && p < a.offset + a.length,
        r matches Err(e) ==> e == ExtractError::BadRunsOffset && (runs_offset < 0x40 || runs_offset >= a.length),
{
    if runs_offset < 0x40 || runs_offset as usize >= a.length {
        Err(ExtractError::BadRunsOffset)
    } else {
        Ok(a.offset + runs_offset as usize)
    }
}

} // verus!

verus! {

/// What the attributes of record 0 give: the extents to visit, the runs of the unnamed
/// `$DATA` found in record 0 itself, and its declared allocated size.
pub struct Record0Scan {
    pub targets: Vec<ExtentTarget>,
    pub base_runs: Vec<DataRun>,
    pub allocated_size: u64,
}

/// The largest non-resident `$ATTRIBUTE_LIST` that is read.
pub const MAX_ATTRIBUTE_LIST_BYTES: u64 = 0x10_0000;

/// Reads the entries of a non-resident `$ATTRIBUTE_LIST` of record 0 into `targets`.
fn scan_nonresident_list<F: Fn(u64, usize) -> Option<Vec<u8>>>(
    read: &F,
    rec: &Vec<u8>,
    a: &AttrHeader,
    bpc: u64,
    partition_offset: u64,
    targets: &mut Vec<ExtentTarget>,
) -> (r: Result<(), ExtractError>)
    requires
        forall|o: u64, n: usize| read.requires((o, n)),
        bpc > 0,
        a.offset + a.length <= rec@.len(),
    ensures
        r matches Err(e) ==> e != ExtractError::NoNtfsPartition,
{
    let rec_len = rec.len();
    let nr = match non_resident_header(rec.as_slice(), a) {
        Some(h) => h,
        None => {
            return Err(ExtractError::BadRunsOffset);
        },
    };
    let p = runs_start(a, nr.runs_offset)?;
    let al_runs = match parse_data_runs(rec.as_slice(), p, a.offset + a.length, nr.start_vcn) {
        Ok(v) => v,
        Err(e) => {
            return Err(ExtractError::Runlist(e));
        },
    };
    let mut covered: u64 = 0;
    let mut i: usize = 0;
    while i < al_runs.len()
        invariant
            i <= al_runs@.len(),
        decreases al_runs@.len() - i,
    {
        covered = match covered.checked_add(al_runs[i].length) {
            Some(v) => v,
            None => {
                return Err(ExtractError::Overflow);
            },
        };
        i = i + 1;
    }
    let covered_bytes = match covered.checked_mul(bpc) {
        Some(v) => v,
        None => {
            return Err(ExtractError::Overflow);
        },
    };
    if covered_bytes < nr.actual_size {
        return Err(ExtractError::AttributeListShort);
    }
    if nr.actual_size == 0 || nr.actual_size > MAX_ATTRIBUTE_LIST_BYTES {
        return Err(ExtractError::AttributeListSize);
    }
    let logical = match nr.start_vcn.checked_mul(bpc) {
        Some(v) => v,
        None => {
            return Err(ExtractError::Overflow);
        },
    };
    let size = nr.actual_size as usize;
    let list = read_logical_mft(read, &al_runs, bpc, partition_offset, logical, size)?;
    collect_data_extents(list.as_slice(), 0, size, targets)
}

/// Record 0's unnamed non-resident `$DATA`: the attribute is one.
pub open spec fn is_base_data(s: Seq<u8>, a: AttrHeader) -> bool {
    a.attr_type == 0x80 && a.name_len == 0 && a.non_resident && non_resident_spec(s, a) is Some
}

/// The runs of record 0's unnamed non-resident `$DATA` attributes among `attrs`, in order.
pub open spec fn base_data_runs(s: Seq<u8>, attrs: Seq<AttrHeader>) -> Seq<DataRun>
    decreases attrs.len(),
{
    if attrs.len() == 0 {
        Seq::empty()
    } else {
        let a = attrs.last();
        let here = if is_base_data(s, a) {
            let nr = non_resident_spec(s, a)->Some_0;
            match decode_runs(s, a.offset + nr.runs_offset, a.offset + a.length, nr.start_vcn as int, 0) {
                Ok(q) => q,
                Err(_) => Seq::empty(),
            }
        } else {
            Seq::empty()
        };
        base_data_runs(s, attrs.drop_last()) + here
    }
}

/// The allocated size declared by the last unnamed non-resident `$DATA` among `attrs`, or 0.
pub open spec fn base_allocated(s: Seq<u8>, attrs: Seq<AttrHeader>) -> u64
    decreases attrs.len(),
{
    if attrs.len() == 0 {
        0
    } else if is_base_data(s, attrs.last()) {
        non_resident_spec(s, attrs.last())->Some_0.allocated_size
    } else {
        base_allocated(s, attrs.drop_last())
    }
}

/// The extents named by the resident `$ATTRIBUTE_LIST`s among `attrs`, in order.
pub open spec fn resident_targets(s: Seq<u8>, attrs: Seq<AttrHeader>) -> Seq<ExtentTarget>
    decreases attrs.len(),
{
    if attrs.len() == 0 {
        Seq::empty()
    } else {
        let a = attrs.last();
        let vl = le32(s, a.offset + 16) as int;
        let vo = le16(s, a.offset + 20) as int;
        let here = if a.attr_type == 0x20 && !a.non_resident && a.length >= 22 && vo <= a.length && vl <= a.length
            - vo {
            match data_extents(s, a.offset + vo, a.offset + vo + vl) {
                Ok(t) => t,
                Err(_) => Seq::empty(),
            }
        } else {
            Seq::empty()
        };
        resident_targets(s, attrs.drop_last()) + here
    }
}

/// Some attribute among `attrs` is a non-resident `$ATTRIBUTE_LIST`.
pub open spec fn has_nonresident_list(attrs: Seq<AttrHeader>) -> bool {
    exists|k: int| 0 <= k < attrs.len() && #[trigger] attrs[k].attr_type == 0x20 && attrs[k].non_resident
}

/// An attribute of record 0 that extraction can use without reading anything: a resident
/// `$ATTRIBUTE_LIST` that fits its attribute and whose entries are well formed, an unnamed
/// non-resident `$DATA` whose mapping pairs decode, or any other attribute. A non-resident
/// `$ATTRIBUTE_LIST` is left to the reads.
pub open spec fn rec0_attr_ok(s: Seq<u8>, a: AttrHeader) -> bool {
    if a.attr_type == 0x20 {
        let vl = le32(s, a.offset + 16) as int;
        let vo = le16(s, a.offset + 20) as int;
        !a.non_resident && a.length >= 22 && vo <= a.length && vl <= a.length - vo && data_extents(
            s,
            a.offset + vo,
            a.offset + vo + vl,
        ) is Ok
    } else if a.attr_type == 0x80 && a.name_len == 0 && a.non_resident {
        non_resident_spec(s, a) matches Some(nr) && nr.runs_offset >= 0x40 && nr.runs_offset < a.length && decode_runs(
            s,
            a.offset + nr.runs_offset,
            a.offset + a.length,
            nr.start_vcn as int,
            0,
        ) is Ok
    } else {
        true
    }
}

/// Walks the attributes of record 0 (fixups applied) and gathers what extraction needs.
/// Every malformed attribute is an error.
pub fn scan_record0<F: Fn(u64, usize) -> Option<Vec<u8>>>(
    read: &F,
    rec: &Vec<u8>,
    header: &MftRecordHeader,
    bpc: u64,
    partition_offset: u64,
) -> (r: Result<Record0Scan, ExtractError>)
    requires
        forall|o: u64, n: usize| read.requires((o, n)),
        bpc > 0,
        header.real_size <= rec@.len(),
    ensures
        ({
            let w = walk_attrs(rec@, header.first_attribute_offset as int, header.real_size as int);
            &&& !w.1
            &&& forall|k: int| 0 <= k < w.0.len() ==> #[trigger] rec0_attr_ok(rec@, w.0[k])
            &&& base_data_runs(rec@, w.0).len() > 0
        }) ==> r is Ok,
        r matches Err(e) ==> e != ExtractError::NoNtfsPartition,
        r matches Ok(s) ==> s.base_runs@.len() > 0,
        r matches Ok(s) ==> {
            let attrs = walk_attrs(rec@, header.first_attribute_offset as int, header.real_size as int).0;
            &&& s.base_runs@ == base_data_runs(rec@, attrs)
            &&& s.allocated_size == base_allocated(rec@, attrs)
            &&& !has_nonresident_list(attrs) ==> s.targets@ == resident_targets(rec@, attrs)
        },
        walk_attrs(rec@, header.first_attribute_offset as int, header.real_size as int).1 ==> r == Err::<
            Record0Scan,
            ExtractError,
        >(ExtractError::MalformedAttribute),
{
    let (attrs, malformed) = attribute_headers(rec.as_slice(), header.first_attribute_offset as usize, header.real_size as usize);
    if malformed {
        return Err(ExtractError::MalformedAttribute);
    }
    let mut targets: Vec<ExtentTarget> = Vec::new();
    let mut base_runs: Vec<DataRun> = Vec::new();
    let mut allocated: u64 = 0;
    let mut i: usize = 0;
    let rec_len = rec.len();
    proof {
        assert(attrs@.subrange(0, 0) =~= Seq::<AttrHeader>::empty());
    }
    while i < attrs.len()
        invariant
            forall|o: u64, n: usize| read.requires((o, n)),
            rec@.len() == rec_len,
            bpc > 0,
            i <= attrs@.len(),
            forall|k: int| 0 <= k < attrs@.len() ==> {
                &&& attrs@[k].length > 0
                &&& attrs@[k].offset + attrs@[k].length <= rec@.len()
            },
            base_runs@ == base_data_runs(rec@, attrs@.subrange(0, i as int)),
            !walk_attrs(rec@, header.first_attribute_offset as int, header.real_size as int).1,
            attrs@ == walk_attrs(rec@, header.first_attribute_offset as int, header.real_size as int).0,
            allocated == base_allocated(rec@, attrs@.subrange(0, i as int)),
            !has_nonresident_list(attrs@.subrange(0, i as int)) ==> targets@ == resident_targets(
                rec@,
                attrs@.subrange(0, i as int),
            ),
        decreases attrs@.len() - i,
    {
        let a = attrs[i];
        let attr_end = a.offset + a.length;
        let ghost next = attrs@.subrange(0, i + 1);
        let ghost runs_before = base_runs@;
        let ghost targets_before = targets@;
        proof {
            assert(next.drop_last() =~= attrs@.subrange(0, i as int));
            assert(next.last() == a);
        }
        if a.attr_type == ATTR_ATTRIBUTE_LIST {
            if !a.non_resident {
                if a.length < 22 {
                    assert(!rec0_attr_ok(rec@, attrs@[i as int]));
                    return Err(ExtractError::AttributeTooShort);
                }
                let value_len = read_u32_le(rec.as_slice(), a.offset + 16) as usize;
                let value_off = read_u16_le(rec.as_slice(), a.offset + 20) as usize;
                if value_off > a.length || value_len > a.length - value_off {
                    assert(!rec0_attr_ok(rec@, attrs@[i as int]));
                    return Err(ExtractError::AttributeListOutOfBounds);
                }
                let list_start = a.offset + value_off;
                match collect_data_extents(rec.as_slice(), list_start, list_start + value_len, &mut targets) {
                    Ok(()) => {},
                    Err(e) => {
                        assert(!rec0_attr_ok(rec@, attrs@[i as int]));
                        return Err(e);
                    },
                }
            } else {
                match scan_nonresident_list(read, rec, &a, bpc, partition_offset, &mut targets) {
                    Ok(()) => {},
                    Err(e) => {
                        assert(!rec0_attr_ok(rec@, attrs@[i as int]));
                        return Err(e);
                    },
                }
            }
        } else if a.attr_type == ATTR_DATA && a.name_len == 0 && a.non_resident {
            let nr = match non_resident_header(rec.as_slice(), &a) {
                Some(h) => h,
                None => {
                    assert(!rec0_attr_ok(rec@, attrs@[i as int]));
                    return Err(ExtractError::BadRunsOffset);
                },
            };
            allocated = nr.allocated_size;
            let p = match runs_start(&a, nr.runs_offset) {
                Ok(p) => p,
                Err(e) => {
                    assert(!rec0_attr_ok(rec@, attrs@[i as int]));
                    return Err(e);
                },
            };
            let mut runs = match parse_data_runs(rec.as_slice(), p, attr_end, nr.start_vcn) {
                Ok(v) => v,
                Err(e) => {
                    assert(!rec0_attr_ok(rec@, attrs@[i as int]));
                    return Err(ExtractError::Runlist(e));
                },
            };
            base_runs.append(&mut runs);
        }
        proof {
            if !is_base_data(rec@, a) {
                assert(base_runs@ == runs_before);
                assert(runs_before + Seq::<DataRun>::empty() =~= runs_before);
            }
            let pre = attrs@.subrange(0, i as int);
            if has_nonresident_list(pre) {
                let k = choose|k: int| 0 <= k < pre.len() && #[trigger] pre[k].attr_type == 0x20 && pre[k].non_resident;
                assert(next[k] == pre[k]);
            }
            if a.attr_type == 0x20 && a.non_resident {
                assert(next[i as int] == a);
            }
            if !has_nonresident_list(next) {
                assert forall|k: int| 0 <= k < pre.len() implies !(#[trigger] pre[k].attr_type == 0x20 && pre[k].non_resident) by {
                    assert(next[k] == pre[k]);
                }
                assert(!(a.attr_type == 0x20 && a.non_resident)) by {
                    assert(next[i as int] == a);
                }
                if !(a.attr_type == 0x20 && !a.non_resident) {
                    assert(targets@ == targets_before);
                    assert(targets_before + Seq::<ExtentTarget>::empty() =~= targets_before);
                }
            }
        }
        i = i + 1;
    }
    proof {
        assert(attrs@.subrange(0, attrs@.len() as int) =~= attrs@);
    }
    if base_runs.len() == 0 {
        return Err(ExtractError::NoBaseRuns);
    }
    Ok(Record0Scan { targets, base_runs, allocated_size: allocated })
}

/// The runs that one attribute of an extent contributes: those of an unnamed non-resident
/// `$DATA` starting at `start_vcn`, none for any other attribute.
pub open spec fn attr_data_runs(s: Seq<u8>, a: AttrHeader, start_vcn: u64) -> Result<Seq<DataRun>, ExtractError> {
    if a.attr_type == 0x80 && a.non_resident && a.name_len == 0 && (non_resident_spec(s, a) matches Some(nr)
        && nr.start_vcn == start_vcn) {
        let nr = non_resident_spec(s, a)->Some_0;
        if nr.runs_offset < 0x40 || nr.runs_offset >= a.length {
            Err(ExtractError::BadRunsOffset)
        } else {
            match decode_runs(s, a.offset + nr.runs_offset, a.offset + a.length, start_vcn as int, 0) {
                Ok(q) => Ok(q),
                Err(e) => Err(ExtractError::Runlist(e)),
            }
        }
    } else {
        Ok(Seq::empty())
    }
}

/// The runs of the unnamed non-resident `$DATA` attributes among `attrs` that start at
/// `start_vcn`, in order; an error for a bad mapping-pairs offset or a bad runlist.
pub open spec fn extent_data_runs(s: Seq<u8>, attrs: Seq<AttrHeader>, start_vcn: u64) -> Result<Seq<DataRun>, ExtractError>
    decreases attrs.len(),
{
    if attrs.len() == 0 {
        Ok(Seq::empty())
    } else {
        match extent_data_runs(s, attrs.drop_last(), start_vcn) {
            Err(e) => Err(e),
            Ok(p) => match attr_data_runs(s, attrs.last(), start_vcn) {
                Ok(q) => Ok(p + q),
                Err(e) => Err(e),
            },
        }
    }
}

fn attr_runs(ext: &Vec<u8>, a: &AttrHeader, start_vcn: u64) -> (r: Result<Vec<DataRun>, ExtractError>)
    requires
        a.offset + a.length <= ext@.len(),
    ensures
        match r {
            Ok(v) => attr_data_runs(ext@, *a, start_vcn) == Ok::<Seq<DataRun>, ExtractError>(v@),
            Err(e) => attr_data_runs(ext@, *a, start_vcn) == Err::<Seq<DataRun>, ExtractError>(e),
        },
{
    let n = ext.len();
    if a.attr_type == ATTR_DATA && a.non_resident && a.name_len == 0 {
        if let Some(nr) = non_resident_header(ext.as_slice(), a) {
            if nr.start_vcn == start_vcn {
                let p = runs_start(a, nr.runs_offset)?;
                return match parse_data_runs(ext.as_slice(), p, a.offset + a.length, start_vcn) {
                    Ok(v) => Ok(v),
                    Err(e) => Err(ExtractError::Runlist(e)),
                };
            }
        }
    }
    Ok(Vec::new())
}

/// What an extent record read for `target` gives: its header must decode, pass the strict
/// checks and carry the expected sequence number, and its fixups must not fail; then the
/// runs of its matching unnamed `$DATA`.
pub open spec fn extent_record_runs(raw: Seq<u8>, target: ExtentTarget, record_size: nat, bytes_per_sector: u16) -> Result<
    Seq<DataRun>,
    ExtractError,
> {
    match decode_header(raw) {
        None => Err(ExtractError::BadRecordHeader),
        Some(h) => match record_boundaries(h, record_size) {
            Err(e) => Err(ExtractError::Record(e)),
            Ok(_) => if h.sequence_number != target.seq {
                Err(ExtractError::SequenceMismatch)
            } else {
                let f = fixup_spec(
                    raw,
                    h.update_sequence_offset as nat,
                    h.update_sequence_size as nat,
                    bytes_per_sector as nat,
                );
                if f.1 == FixupResult::Failed {
                    Err(ExtractError::FixupFailed)
                } else {
                    extent_data_runs(f.0, walk_attrs(f.0, h.first_attribute_offset as int, h.real_size as int).0, target.start_vcn)
                }
            },
        },
    }
}

proof fn lemma_extent_data_runs_error(s: Seq<u8>, attrs: Seq<AttrHeader>, start_vcn: u64)
    ensures
        extent_data_runs(s, attrs, start_vcn) != Err::<Seq<DataRun>, ExtractError>(ExtractError::NoNtfsPartition),
    decreases attrs.len(),
{
    if attrs.len() > 0 {
        lemma_extent_data_runs_error(s, attrs.drop_last(), start_vcn);
    }
}

proof fn lemma_extent_runs_err_sticks(s: Seq<u8>, attrs: Seq<AttrHeader>, i: int, start_vcn: u64)
    requires
        0 <= i <= attrs.len(),
        extent_data_runs(s, attrs.subrange(0, i), start_vcn) is Err,
    ensures
        extent_data_runs(s, attrs, start_vcn) == extent_data_runs(s, attrs.subrange(0, i), start_vcn),
    decreases attrs.len() - i,
{
    if i < attrs.len() {
        let next = attrs.subrange(0, i + 1);
        assert(next.drop_last() =~= attrs.subrange(0, i));
        lemma_extent_runs_err_sticks(s, attrs, i + 1, start_vcn);
    } else {
        assert(attrs.subrange(0, i) =~= attrs);
    }
}

/// Checks an extent record read for `target` and decodes the runs of its matching unnamed
/// `$DATA`.
pub fn extent_runs_from_record(ext: Vec<u8>, target: &ExtentTarget, record_size: usize, bytes_per_sector: u16) -> (r: Result<
    Vec<DataRun>,
    ExtractError,
>)
    ensures
        match r {
            Ok(v) => extent_record_runs(ext@, *target, record_size as nat, bytes_per_sector) == Ok::<
                Seq<DataRun>,
                ExtractError,
            >(v@),
            Err(e) => extent_record_runs(ext@, *target, record_size as nat, bytes_per_sector) == Err::<
                Seq<DataRun>,
                ExtractError,
            >(e),
        },
{
    let ghost raw = ext@;
    let mut rec = ext;
    let eh = match MftRecordHeader::parse(rec.as_slice()) {
        Some(h) => h,
        None => {
            return Err(ExtractError::BadRecordHeader);
        },
    };
    if let Err(e) = validate_record_boundaries(&eh, record_size) {
        return Err(ExtractError::Record(e));
    }
    if eh.sequence_number != target.seq {
        return Err(ExtractError::SequenceMismatch);
    }
    if apply_fixups(&mut rec, &eh, bytes_per_sector) == FixupResult::Failed {
        return Err(ExtractError::FixupFailed);
    }
    let (attrs, _) = attribute_headers(rec.as_slice(), eh.first_attribute_offset as usize, eh.real_size as usize);
    let mut out: Vec<DataRun> = Vec::new();
    let mut i: usize = 0;
    let ext_len = rec.len();
    proof {
        assert(attrs@.subrange(0, 0) =~= Seq::<AttrHeader>::empty());
        assert(extent_record_runs(raw, *target, record_size as nat, bytes_per_sector) == extent_data_runs(
            rec@,
            attrs@,
            target.start_vcn,
        ));
    }
    while i < attrs.len()
        invariant
            raw == ext@,
            rec@.len() == ext_len,
            i <= attrs@.len(),
            forall|k: int| 0 <= k < attrs@.len() ==> {
                &&& attrs@[k].length > 0
                &&& attrs@[k].offset + attrs@[k].length <= rec@.len()
            },
            extent_data_runs(rec@, attrs@.subrange(0, i as int), target.start_vcn) == Ok::<Seq<DataRun>, ExtractError>(out@),
            extent_record_runs(raw, *target, record_size as nat, bytes_per_sector) == extent_data_runs(
                rec@,
                attrs@,
                target.start_vcn,
            ),
        decreases attrs@.len() - i,
    {
        let a = attrs[i];
        let ghost next = attrs@.subrange(0, i + 1);
        proof {
            assert(next.drop_last() =~= attrs@.subrange(0, i as int));
            assert(next.last() == a);
        }
        let mut runs = match attr_runs(&rec, &a, target.start_vcn) {
            Ok(v) => v,
            Err(e) => {
                proof {
                    assert(extent_data_runs(rec@, next, target.start_vcn) == Err::<Seq<DataRun>, ExtractError>(e));
                    lemma_extent_runs_err_sticks(rec@, attrs@, i + 1, target.start_vcn);
                    assert(extent_data_runs(rec@, attrs@, target.start_vcn) == Err::<Seq<DataRun>, ExtractError>(e));
                    assert(extent_record_runs(raw, *target, record_size as nat, bytes_per_sector) == Err::<Seq<DataRun>, ExtractError>(e));
                }
                return Err(e);
            },
        };
        out.append(&mut runs);
        i = i + 1;
    }
    proof {
        assert(attrs@.subrange(0, attrs@.len() as int) =~= attrs@);
    }
    Ok(out)
}

/// `added` are the runs that extent `target` contributes: the record read for it through the
/// base runs (byte for byte the stream of the disk that `read` reads) passes the extent checks
/// and its matching unnamed `$DATA` decodes to `added`.
pub open spec fn extent_contribution<F: Fn(u64, usize) -> Option<Vec<u8>>>(
    read: &F,
    base_runs: Seq<DataRun>,
    bpc: u64,
    partition_offset: u64,
    record_size: usize,
    bytes_per_sector: u16,
    target: ExtentTarget,
    added: Seq<DataRun>,
) -> bool {
    exists|rec: Seq<u8>|
        {
            &&& rec.len() == record_size
            &&& extent_record_runs(rec, target, record_size as nat, bytes_per_sector) == Ok::<
                Seq<DataRun>,
                ExtractError,
            >(added)
            &&& forall|disk: Seq<u8>|
                #[trigger] reads_disk(read, disk) ==> forall|k: int|
                    0 <= k < record_size ==> #[trigger] stream_byte(
                        disk,
                        base_runs,
                        bpc as int,
                        partition_offset as int,
                        target.entry * record_size,
                        k,
                    ) == Some(rec[k])
        }
}

/// Fetches one extent record through the `$MFT`'s base runs, checks it, and appends the
/// runs of its unnamed `$DATA` that start at the expected VCN.
pub fn extent_runs<F: Fn(u64, usize) -> Option<Vec<u8>>>(
    read: &F,
    base_runs: &Vec<DataRun>,
    target: &ExtentTarget,
    record_size: usize,
    bytes_per_sector: u16,
    bpc: u64,
    partition_offset: u64,
    all_runs: &mut Vec<DataRun>,
) -> (r: Result<(), ExtractError>)
    requires
        forall|o: u64, n: usize| read.requires((o, n)),
        bpc > 0,
    ensures
        forall|disk: Seq<u8>|
            #[trigger] reads_disk(read, disk) ==> {
                let rec = stream_bytes(
                    disk,
                    base_runs@,
                    bpc as int,
                    partition_offset as int,
                    target.entry * record_size,
                    record_size as int,
                );
                &&& (target.entry * record_size <= u64::MAX && stream_readable(
                    disk,
                    base_runs@,
                    bpc as int,
                    partition_offset as int,
                    target.entry * record_size,
                    record_size as int,
                ) && extent_record_runs(rec, *target, record_size as nat, bytes_per_sector) is Ok) ==> r is Ok
                &&& r is Ok ==> final(all_runs)@ == old(all_runs)@ + extent_record_runs(
                    rec,
                    *target,
                    record_size as nat,
                    bytes_per_sector,
                )->Ok_0
            },
        r matches Err(e) ==> e != ExtractError::NoNtfsPartition,
        r is Ok ==> exists|added: Seq<DataRun>|
            {
                &&& final(all_runs)@ == old(all_runs)@ + added
                &&& #[trigger] extent_contribution(
                    read,
                    base_runs@,
                    bpc,
                    partition_offset,
                    record_size,
                    bytes_per_sector,
                    *target,
                    added,
                )
            },
        r matches Err(e) ==> e == ExtractError::SequenceMismatch ==> exists|rec: Seq<u8>|
            extent_record_runs(rec, *target, record_size as nat, bytes_per_sector) == Err::<Seq<DataRun>, ExtractError>(e),
{
    let offset = match target.entry.checked_mul(record_size as u64) {
        Some(v) => v,
        None => {
            return Err(ExtractError::Overflow);
        },
    };
    let ext = read_logical_mft(read, base_runs, bpc, partition_offset, offset, record_size)?;
    let ghost rec = ext@;
    proof {
        lemma_extent_data_runs_error(ext@, Seq::empty(), target.start_vcn);
    }
    let mut runs = match extent_runs_from_record(ext, target, record_size, bytes_per_sector) {
        Ok(v) => v,
        Err(e) => {
            proof {
                let raw = rec;
                match decode_header(raw) {
                    Some(h) => {
                        let f = fixup_spec(raw, h.update_sequence_offset as nat, h.update_sequence_size as nat, bytes_per_sector as nat);
                        lemma_extent_data_runs_error(f.0, walk_attrs(f.0, h.first_attribute_offset as int, h.real_size as int).0, target.start_vcn);
                    },
                    None => {},
                }
            }
            return Err(e);
        },
    };
    let ghost added = runs@;
    all_runs.append(&mut runs);
    assert(extent_contribution(read, base_runs@, bpc, partition_offset, record_size, bytes_per_sector, *target, added));
    Ok(())
}

} // verus!

verus! {

/// The runs of `l` are record 0's own `$DATA` runs plus the runs that each extent target
/// contributes: `rec0` is record 0 as read at `partition_offset + mft_lcn * bpc`; `targets`
/// are the extents its `$ATTRIBUTE_LIST` names (exactly its resident lists' entries when it has
/// no non-resident list); `adds[t]` are the runs of `targets[t]`, each read through record 0's
/// runs and passing the extent checks, its sequence number included.
pub open spec fn layout_from_records<F: Fn(u64, usize) -> Option<Vec<u8>>>(
    read: &F,
    l: MftLayout,
    rec0: Vec<u8>,
    targets: Seq<ExtentTarget>,
    adds: Seq<Seq<DataRun>>,
) -> bool {
    &&& read.ensures(((l.partition_offset + l.boot.mft_lcn * l.bytes_per_cluster) as u64, l.record_size), Some(rec0))
    &&& decode_header(rec0@) matches Some(h) && {
        let f0 = fixup_spec(
            rec0@,
            h.update_sequence_offset as nat,
            h.update_sequence_size as nat,
            l.boot.bytes_per_sector as nat,
        ).0;
        let attrs0 = walk_attrs(f0, h.first_attribute_offset as int, h.real_size as int).0;
        let base = base_data_runs(f0, attrs0);
        &&& targets.len() == adds.len()
        &&& (!has_nonresident_list(attrs0) ==> targets == resident_targets(f0, attrs0))
        &&& forall|t: int|
            0 <= t < targets.len() ==> #[trigger] extent_contribution(
                read,
                base,
                l.bytes_per_cluster,
                l.partition_offset,
                l.record_size,
                l.boot.bytes_per_sector,
                targets[t],
                adds[t],
            )
        &&& l.runs@.to_multiset() == (base + adds.flatten()).to_multiset()
    }
}

/// The runs that each extent target contributes on `disk`, read through `base`.
pub open spec fn extent_adds(
    disk: Seq<u8>,
    base: Seq<DataRun>,
    bpc: int,
    po: int,
    rs: nat,
    bps: u16,
    targets: Seq<ExtentTarget>,
) -> Seq<Seq<DataRun>> {
    Seq::new(
        targets.len(),
        |t: int|
            extent_record_runs(stream_bytes(disk, base, bpc, po, targets[t].entry * rs, rs as int), targets[t], rs, bps)->Ok_0,
    )
}

/// Every extent target of record 0 reads cleanly from `disk` and passes the extent checks.
pub open spec fn extents_ready(
    disk: Seq<u8>,
    base: Seq<DataRun>,
    bpc: int,
    po: int,
    rs: nat,
    bps: u16,
    targets: Seq<ExtentTarget>,
) -> bool {
    forall|t: int|
        0 <= t < targets.len() ==> {
            &&& targets[t].entry * rs <= u64::MAX
            &&& stream_readable(disk, base, bpc, po, targets[t].entry * rs, rs as int)
            &&& #[trigger] extent_record_runs(
                stream_bytes(disk, base, bpc, po, targets[t].entry * rs, rs as int),
                targets[t],
                rs,
                bps,
            ) is Ok
        }
}

/// Every VCN-ordered arrangement of `runs` is an accepted runlist covering whole records.
pub open spec fn runs_assemble(runs: Seq<DataRun>, bpc: nat, allocated: nat, rs: nat) -> bool {
    forall|s: Seq<DataRun>|
        #[trigger] s.to_multiset() == runs.to_multiset() && sorted_by_vcn(s) ==> runlist_accepted(s, bpc, allocated)
            && ((clusters_before(s, s.len() as int) * bpc) as int) % (rs as int) == 0
}

/// Record 0 of the `$MFT` found on `disk` at `po` with record size `rs`, fixed up, is one that
/// extraction completes on without reading anything else but its extents: its header passes,
/// its attributes are well formed with no non-resident `$ATTRIBUTE_LIST`, its `$DATA` has
/// runs, each extent reads and checks cleanly, and the runs assemble.
#[verifier::opaque]
pub open spec fn record0_ready(disk: Seq<u8>, po: int, b: NtfsBootSector, rs: nat) -> bool {
    let bpc = b.spec_bytes_per_cluster();
    let mo = po + b.mft_lcn * bpc;
    &&& mo <= u64::MAX
    &&& disk_read(disk, mo, rs as int) matches Some(r0) && decode_header(r0) matches Some(h) && record_boundaries(
        h,
        rs,
    ) is Ok && {
        let f = fixup_spec(r0, h.update_sequence_offset as nat, h.update_sequence_size as nat, b.bytes_per_sector as nat);
        let w = walk_attrs(f.0, h.first_attribute_offset as int, h.real_size as int);
        let base = base_data_runs(f.0, w.0);
        let targets = resident_targets(f.0, w.0);
        &&& f.1 != FixupResult::Failed
        &&& !w.1
        &&& forall|k: int| 0 <= k < w.0.len() ==> #[trigger] rec0_attr_ok(f.0, w.0[k])
        &&& base.len() > 0
        &&& extents_ready(disk, base, bpc as int, po, rs, b.bytes_per_sector, targets)
        &&& runs_assemble(
            base + extent_adds(disk, base, bpc as int, po, rs, b.bytes_per_sector, targets).flatten(),
            bpc,
            base_allocated(f.0, w.0) as nat,
            rs,
        )
    }
}

/// Extraction succeeds on `disk`: the volume is found, its boot sector passes validation, and
/// record 0 is ready.
#[verifier::opaque]
pub open spec fn extraction_ready(disk: Seq<u8>) -> bool {
    locate_spec(disk) matches Ok(po) && disk_read(disk, po as int, 512) matches Some(v) && decode_boot(v) matches Some(
        b,
    ) && b.spec_validate() matches Ok(rs) && record0_ready(disk, po as int, b, rs as nat)
}

/// Locates the NTFS volume, decodes and checks its boot sector and record 0 of the `$MFT`,
/// follows the `$ATTRIBUTE_LIST` to every extent that holds part of the `$MFT`'s `$DATA`,
/// and assembles the complete runlist. Every inconsistency is an error.
#[verifier::rlimit(50)]
pub fn extract_runlist<F: Fn(u64, usize) -> Option<Vec<u8>>>(read: &F) -> (r: Result<MftLayout, ExtractError>)
    requires
        forall|o: u64, n: usize| read.requires((o, n)),
    ensures
        forall|disk: Seq<u8>| #[trigger] reads_disk(read, disk) && extraction_ready(disk) ==> r is Ok,
        r matches Ok(l) ==> {
            &&& exists|ss: u64| valid_sector_size(ss as int) && vbr_seen(read, l.partition_offset, ss)
            &&& l.boot.spec_validate() == Ok::<usize, VbrError>(l.record_size)
            &&& l.bytes_per_cluster == l.boot.spec_bytes_per_cluster()
            &&& sorted_by_vcn(l.runs@)
            &&& runlist_accepted(l.runs@, l.bytes_per_cluster as nat, l.allocated_size as nat)
            &&& l.total_bytes == clusters_before(l.runs@, l.runs@.len() as int) * l.bytes_per_cluster
            &&& l.record_size > 0 && (l.total_bytes as int) % (l.record_size as int) == 0
            &&& l.partition_offset + l.boot.mft_lcn * l.bytes_per_cluster <= u64::MAX
            &&& exists|v: Vec<u8>|
                {
                    &&& read.ensures(
                        ((l.partition_offset + l.boot.mft_lcn * l.bytes_per_cluster) as u64, l.record_size),
                        Some(v),
                    )
                    &&& v@.len() == l.record_size
                    &&& decode_header(v@) matches Some(h) && record_boundaries(h, l.record_size as nat) is Ok
                }
            &&& forall|disk: Seq<u8>| #[trigger] reads_disk(read, disk) ==> locate_spec(disk) == Ok::<u64, NoNtfsPartition>(l.partition_offset)
            &&& exists|rec0: Vec<u8>, targets: Seq<ExtentTarget>, adds: Seq<Seq<DataRun>>|
                #[trigger] layout_from_records(read, l, rec0, targets, adds)
        },
        forall|disk: Seq<u8>|
            #[trigger] reads_disk(read, disk) ==> (locate_spec(disk) is Err <==> r == Err::<MftLayout, ExtractError>(
                ExtractError::NoNtfsPartition,
            )),
{
    let partition_offset = match find_ntfs_partition(read) {
        Ok(o) => o,
        Err(_) => {
            proof {
                assert forall|disk: Seq<u8>| #[trigger] reads_disk(read, disk) implies !extraction_ready(disk) by {
                    reveal(extraction_ready);
                    reveal(record0_ready);
                }
            }
            return Err(ExtractError::NoNtfsPartition);
        },
    };
    let vbr = match read_exact_at(read, partition_offset, 512) {
        Some(v) => v,
        None => {
            proof {
                assert forall|disk: Seq<u8>| #[trigger] reads_disk(read, disk) implies !extraction_ready(disk) by {
                    reveal(extraction_ready);
                    reveal(record0_ready);
                }
            }
            return Err(ExtractError::ReadFailed);
        },
    };
    let boot = match NtfsBootSector::parse(vbr.as_slice()) {
        Some(b) => b,
        None => {
            proof {
                assert forall|disk: Seq<u8>| #[trigger] reads_disk(read, disk) implies !extraction_ready(disk) by {
                    reveal(extraction_ready);
                    reveal(record0_ready);
                }
            }
            return Err(ExtractError::BadBootSector);
        },
    };
    let record_size = match validate_vbr(&boot) {
        Ok(rs) => rs,
        Err(e) => {
            proof {
                assert forall|disk: Seq<u8>| #[trigger] reads_disk(read, disk) implies !extraction_ready(disk) by {
                    reveal(extraction_ready);
                    reveal(record0_ready);
                }
            }
            return Err(ExtractError::Vbr(e));
        },
    };
    let bpc = boot.bytes_per_cluster();
    assert(bpc > 0) by (nonlinear_arith)
        requires
            bpc == boot.bytes_per_sector as nat * boot.sectors_per_cluster as nat,
            boot.bytes_per_sector >= 512,
            boot.sectors_per_cluster >= 1,
    ;
    let mft_offset = match boot.mft_lcn.checked_mul(bpc) {
        Some(v) => match partition_offset.checked_add(v) {
            Some(w) => w,
            None => {
                proof {
                    assert forall|disk: Seq<u8>| #[trigger] reads_disk(read, disk) implies !extraction_ready(disk) by {
                        reveal(extraction_ready);
                        reveal(record0_ready);
                    }
                }
                return Err(ExtractError::Overflow);
            },
        },
        None => {
            proof {
                assert forall|disk: Seq<u8>| #[trigger] reads_disk(read, disk) implies !extraction_ready(disk) by {
                    reveal(extraction_ready);
                    reveal(record0_ready);
                }
            }
            return Err(ExtractError::Overflow);
        },
    };
    let mut rec0 = match read_exact_at(read, mft_offset, record_size) {
        Some(v) => v,
        None => {
            proof {
                assert forall|disk: Seq<u8>| #[trigger] reads_disk(read, disk) implies !extraction_ready(disk) by {
                    reveal(extraction_ready);
                    reveal(record0_ready);
                }
            }
            return Err(ExtractError::ReadFailed);
        },
    };
    let ghost rec0_raw = rec0;
    let header0 = match MftRecordHeader::parse(rec0.as_slice()) {
        Some(h) => h,
        None => {
            proof {
                assert forall|disk: Seq<u8>| #[trigger] reads_disk(read, disk) implies !extraction_ready(disk) by {
                    reveal(extraction_ready);
                    reveal(record0_ready);
                }
            }
            return Err(ExtractError::BadRecordHeader);
        },
    };
    if let Err(e) = validate_record_boundaries(&header0, record_size) {
        proof {
            assert forall|disk: Seq<u8>| #[trigger] reads_disk(read, disk) implies !extraction_ready(disk) by {
                reveal(extraction_ready);
                reveal(record0_ready);
            }
        }
        return Err(ExtractError::Record(e));
    }
    if apply_fixups(&mut rec0, &header0, boot.bytes_per_sector) == FixupResult::Failed {
        proof {
            assert forall|disk: Seq<u8>| #[trigger] reads_disk(read, disk) implies !extraction_ready(disk) by {
                reveal(extraction_ready);
                reveal(record0_ready);
            }
        }
        return Err(ExtractError::FixupFailed);
    }
    let ghost f0 = rec0@;
    let ghost w0 = walk_attrs(f0, header0.first_attribute_offset as int, header0.real_size as int).0;
    let scan = match scan_record0(read, &rec0, &header0, bpc, partition_offset) {
        Ok(sc) => sc,
        Err(e) => {
            proof {
                assert forall|disk: Seq<u8>| #[trigger] reads_disk(read, disk) implies !extraction_ready(disk) by {
                    reveal(extraction_ready);
                    reveal(record0_ready);
                }
            }
            return Err(e);
        },
    };
    proof {
        assert forall|disk: Seq<u8>| #[trigger] reads_disk(read, disk) && extraction_ready(disk) implies {
            &&& scan.targets@ == resident_targets(f0, w0)
            &&& extents_ready(disk, scan.base_runs@, bpc as int, partition_offset as int, record_size as nat, boot.bytes_per_sector, scan.targets@)
            &&& runs_assemble(
                scan.base_runs@ + extent_adds(disk, scan.base_runs@, bpc as int, partition_offset as int, record_size as nat, boot.bytes_per_sector, scan.targets@).flatten(),
                bpc as nat,
                scan.allocated_size as nat,
                record_size as nat,
            )
        } by {
            reveal(extraction_ready);
            reveal(record0_ready);
            if has_nonresident_list(w0) {
                let k = choose|k: int| 0 <= k < w0.len() && #[trigger] w0[k].attr_type == 0x20 && w0[k].non_resident;
                assert(rec0_attr_ok(f0, w0[k]));
            }
        }
    }
    let mut all_runs: Vec<DataRun> = Vec::new();
    let mut c: usize = 0;
    while c < scan.base_runs.len()
        invariant
            c <= scan.base_runs@.len(),
            all_runs@ == scan.base_runs@.subrange(0, c as int),
        decreases scan.base_runs@.len() - c,
    {
        all_runs.push(scan.base_runs[c]);
        proof {
            assert(scan.base_runs@.subrange(0, c + 1) =~= scan.base_runs@.subrange(0, c as int).push(scan.base_runs@[c as int]));
        }
        c = c + 1;
    }
    proof {
        assert(scan.base_runs@.subrange(0, scan.base_runs@.len() as int) =~= scan.base_runs@);
    }
    let ghost mut adds: Seq<Seq<DataRun>> = Seq::empty();
    proof {
        assert(adds.flatten() =~= Seq::<DataRun>::empty());
        assert(all_runs@ + adds.flatten() =~= all_runs@);
    }
    let mut t: usize = 0;
    while t < scan.targets.len()
        invariant
            forall|o: u64, n: usize| read.requires((o, n)),
            bpc > 0,
            forall|disk: Seq<u8>| #[trigger] reads_disk(read, disk) ==> locate_spec(disk) == Ok::<u64, NoNtfsPartition>(partition_offset),
            t <= scan.targets@.len(),
            adds.len() == t,
            forall|disk: Seq<u8>| #[trigger] reads_disk(read, disk) && extraction_ready(disk) ==> {
                &&& extents_ready(disk, scan.base_runs@, bpc as int, partition_offset as int, record_size as nat, boot.bytes_per_sector, scan.targets@)
                &&& runs_assemble(
                    scan.base_runs@ + extent_adds(disk, scan.base_runs@, bpc as int, partition_offset as int, record_size as nat, boot.bytes_per_sector, scan.targets@).flatten(),
                    bpc as nat,
                    scan.allocated_size as nat,
                    record_size as nat,
                )
            },
            forall|disk: Seq<u8>| #[trigger] reads_disk(read, disk) ==> forall|u: int| 0 <= u < t ==> adds[u] == extent_record_runs(
                stream_bytes(disk, scan.base_runs@, bpc as int, partition_offset as int, scan.targets@[u].entry * record_size, record_size as int),
                scan.targets@[u],
                record_size as nat,
                boot.bytes_per_sector,
            )->Ok_0,
            all_runs@ == scan.base_runs@ + adds.flatten(),
            forall|u: int|
                0 <= u < t ==> #[trigger] extent_contribution(
                    read,
                    scan.base_runs@,
                    bpc,
                    partition_offset,
                    record_size,
                    boot.bytes_per_sector,
                    scan.targets@[u],
                    adds[u],
                ),
        decreases scan.targets@.len() - t,
    {
        let ghost before = all_runs@;
        let er = extent_runs(
            read,
            &scan.base_runs,
            &scan.targets[t],
            record_size,
            boot.bytes_per_sector,
            bpc,
            partition_offset,
            &mut all_runs,
        );
        if er.is_err() {
            proof {
                assert forall|disk: Seq<u8>| #[trigger] reads_disk(read, disk) implies !extraction_ready(disk) by {
                    if extraction_ready(disk) {
                        let tt = t as int;
                        assert(extents_ready(disk, scan.base_runs@, bpc as int, partition_offset as int, record_size as nat, boot.bytes_per_sector, scan.targets@));
                        assert(extent_record_runs(
                            stream_bytes(disk, scan.base_runs@, bpc as int, partition_offset as int, scan.targets@[tt].entry * record_size, record_size as int),
                            scan.targets@[tt],
                            record_size as nat,
                            boot.bytes_per_sector,
                        ) is Ok);
                    }
                }
            }
            return Err(er.unwrap_err());
        }
        proof {
            let added = choose|added: Seq<DataRun>|
                {
                    &&& all_runs@ == before + added
                    &&& #[trigger] extent_contribution(
                        read,
                        scan.base_runs@,
                        bpc,
                        partition_offset,
                        record_size,
                        boot.bytes_per_sector,
                        scan.targets@[t as int],
                        added,
                    )
                };
            assert forall|disk: Seq<u8>| #[trigger] reads_disk(read, disk) implies added == extent_record_runs(
                stream_bytes(disk, scan.base_runs@, bpc as int, partition_offset as int, scan.targets@[t as int].entry * record_size, record_size as int),
                scan.targets@[t as int],
                record_size as nat,
                boot.bytes_per_sector,
            )->Ok_0 by {
                assert(added =~= all_runs@.subrange(before.len() as int, all_runs@.len() as int));
            }
            adds.lemma_flatten_push(added);
            let old_adds = adds;
            adds = adds.push(added);
            assert(all_runs@ =~= scan.base_runs@ + adds.flatten());
            assert forall|u: int| 0 <= u < t + 1 implies #[trigger] extent_contribution(
                read,
                scan.base_runs@,
                bpc,
                partition_offset,
                record_size,
                boot.bytes_per_sector,
                scan.targets@[u],
                adds[u],
            ) by {
                if u < t {
                    assert(adds[u] == old_adds[u]);
                }
            }
            assert forall|disk: Seq<u8>| #[trigger] reads_disk(read, disk) implies forall|u: int| 0 <= u < t + 1 ==> adds[u] == extent_record_runs(
                stream_bytes(disk, scan.base_runs@, bpc as int, partition_offset as int, scan.targets@[u].entry * record_size, record_size as int),
                scan.targets@[u],
                record_size as nat,
                boot.bytes_per_sector,
            )->Ok_0 by {
                assert forall|u: int| 0 <= u < t + 1 implies adds[u] == extent_record_runs(
                    stream_bytes(disk, scan.base_runs@, bpc as int, partition_offset as int, scan.targets@[u].entry * record_size, record_size as int),
                    scan.targets@[u],
                    record_size as nat,
                    boot.bytes_per_sector,
                )->Ok_0 by {
                    if u < t {
                        assert(adds[u] == old_adds[u]);
                    }
                }
            }
        }
        t = t + 1;
    }
    let ghost pre_sort = all_runs@;
    let total = match assemble_runlist(&mut all_runs, bpc, scan.allocated_size) {
        Ok(v) => v,
        Err(e) => {
            proof {
                assert forall|disk: Seq<u8>| #[trigger] reads_disk(read, disk) implies !extraction_ready(disk) by {
                    if extraction_ready(disk) {
                        assert(adds =~= extent_adds(disk, scan.base_runs@, bpc as int, partition_offset as int, record_size as nat, boot.bytes_per_sector, scan.targets@));
                        assert(all_runs@.to_multiset() == pre_sort.to_multiset());
                    }
                }
            }
            return Err(ExtractError::Runlist(e));
        },
    };
    if total % (record_size as u64) != 0 {
        proof {
            assert forall|disk: Seq<u8>| #[trigger] reads_disk(read, disk) implies !extraction_ready(disk) by {
                if extraction_ready(disk) {
                    assert(adds =~= extent_adds(disk, scan.base_runs@, bpc as int, partition_offset as int, record_size as nat, boot.bytes_per_sector, scan.targets@));
                    assert(all_runs@.to_multiset() == pre_sort.to_multiset());
                }
            }
        }
        return Err(ExtractError::PartialRecord);
    }
    assert(read.ensures((mft_offset, record_size), Some(rec0_raw)));
    let layout = MftLayout {
        partition_offset,
        boot,
        record_size,
        bytes_per_cluster: bpc,
        allocated_size: scan.allocated_size,
        runs: all_runs,
        total_bytes: total,
    };
    assert(layout_from_records(read, layout, rec0_raw, scan.targets@, adds));
    Ok(layout)
}

/// Where the clusters of a non-sparse run begin on the source, as a byte offset.
pub fn run_source_offset(partition_offset: u64, run: &DataRun, bpc: u64) -> (r: Option<u64>)
    ensures
        r matches Some(o) ==> o == partition_offset + run.lcn * bpc,
        r is None <==> partition_offset + run.lcn * bpc > u64::MAX,
{
    match run.lcn.checked_mul(bpc) {
        Some(v) => partition_offset.checked_add(v),
        None => {
            assert(run.lcn * bpc <= partition_offset + run.lcn * bpc);
            None
        },
    }
}

/// The number of bytes that a run contributes to the extracted `$MFT`.
pub fn run_byte_len(run: &DataRun, bpc: u64) -> (r: Option<u64>)
    ensures
        r matches Some(n) ==> n == run.length * bpc,
        r is None <==> run.length * bpc > u64::MAX,
{
    run.length.checked_mul(bpc)
}

} // verus!
