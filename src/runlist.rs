//! NTFS mapping pairs (runlists): decoding and assembly into a gap-free map of clusters.
use vstd::prelude::*;
use crate::bytes::{le_value, pow256, read_le, lemma_le_value_bound, lemma_pow256_values, lemma_pow256_monotone};

verus! {

/// A contiguous range of virtual clusters and where it lies on the volume.
#[derive(Debug, Clone, Copy, PartialEq, Eq, Structural)]
pub struct DataRun {
    pub vcn_start: u64,
    pub length: u64,
    pub lcn: u64,
    pub is_sparse: bool,
}

/// Why a runlist was refused.
#[derive(Debug, Clone, Copy, PartialEq, Eq, Structural)]
pub enum RunlistError {
    /// A pair header with a zero length width or a width above 8.
    BadHeader,
    /// A pair crosses the end of the attribute.
    OutOfBounds,
    ZeroLength,
    /// A cluster number or a size does not fit in 64 bits.
    Overflow,
    /// The accumulated LCN of a non-sparse run is negative.
    NegativeLcn,
    /// No run at all.
    Empty,
    /// The runs leave a hole in the VCN range.
    Gap,
    /// Two runs cover the same VCN.
    Overlap,
    /// The runs cover less than the attribute's allocated size.
    Short,
}

/// The signed little-endian value of `n` bytes at `off`, sign-extended from the top byte.
pub open spec fn signed_le(s: Seq<u8>, off: int, n: nat) -> int {
    if n == 0 {
        0
    } else if s[off + n - 1] >= 0x80 {
        le_value(s, off, n) - pow256(n)
    } else {
        le_value(s, off, n) as int
    }
}

pub open spec fn prepend_runs(
    prefix: Seq<DataRun>,
    rest: Result<Seq<DataRun>, RunlistError>,
) -> Result<Seq<DataRun>, RunlistError> {
    match rest {
        Ok(r) => Ok(prefix + r),
        Err(e) => Err(e),
    }
}

/// The runs that the mapping pairs at `off`, up to `end`, decode to, starting at
/// virtual cluster `vcn` with the LCN accumulator at `lcn`.
pub open spec fn decode_runs(s: Seq<u8>, off: int, end: int, vcn: int, lcn: int) -> Result<
    Seq<DataRun>,
    RunlistError,
>
    decreases end - off,
{
    if off >= end || off < 0 {
        Ok(Seq::empty())
    } else if s[off] == 0 {
        Ok(Seq::empty())
    } else {
        let len_bytes = (s[off] % 16) as nat;
        let off_bytes = (s[off] / 16) as nat;
        let next = off + 1 + len_bytes + off_bytes;
        if len_bytes == 0 || len_bytes > 8 || off_bytes > 8 {
            Err(RunlistError::BadHeader)
        } else if next > end {
            Err(RunlistError::OutOfBounds)
        } else {
            let length = le_value(s, off + 1, len_bytes);
            let new_lcn = lcn + signed_le(s, off + 1 + len_bytes, off_bytes);
            if length == 0 {
                Err(RunlistError::ZeroLength)
            } else if new_lcn < i64::MIN || new_lcn > i64::MAX {
                Err(RunlistError::Overflow)
            } else if off_bytes > 0 && new_lcn < 0 {
                Err(RunlistError::NegativeLcn)
            } else if vcn + length > u64::MAX {
                Err(RunlistError::Overflow)
            } else {
                let run = DataRun {
                    vcn_start: vcn as u64,
                    length: length as u64,
                    lcn: if off_bytes == 0 { 0 } else { new_lcn as u64 },
                    is_sparse: off_bytes == 0,
                };
                prepend_runs(seq![run], decode_runs(s, next, end, vcn + length, new_lcn))
            }
        }
    }
}

proof fn lemma_prepend_assoc(a: Seq<DataRun>, b: Seq<DataRun>, r: Result<Seq<DataRun>, RunlistError>)
    ensures
        prepend_runs(a, prepend_runs(b, r)) == prepend_runs(a + b, r),
{
    match r {
        Ok(x) => {
            assert(a + (b + x) =~= (a + b) + x);
        },
        Err(_) => {},
    }
}

proof fn lemma_prepend_empty(r: Result<Seq<DataRun>, RunlistError>)
    ensures
        prepend_runs(Seq::empty(), r) == r,
{
    match r {
        Ok(x) => {
            assert(Seq::<DataRun>::empty() + x =~= x);
        },
        Err(_) => {},
    }
}

fn pow256_exec(n: usize) -> (r: u128)
    requires
        n <= 8,
    ensures
        r as nat == pow256(n as nat),
{
    let mut r: u128 = 1;
    let mut i: usize = 0;
    proof {
        lemma_pow256_values();
    }
    while i < n
        invariant
            i <= n <= 8,
            r as nat == pow256(i as nat),
            pow256(8) == 0x1_0000_0000_0000_0000,
        decreases n - i,
    {
        proof {
            lemma_pow256_monotone((i + 1) as nat, 8);
        }
        r = r * 256;
        i = i + 1;
    }
    r
}

/// Decodes the mapping pairs of a non-resident attribute, from `run_off` up to
/// `attr_end`, with the first run starting at virtual cluster `start_vcn`.
pub fn parse_data_runs(record: &[u8], run_off: usize, attr_end: usize, start_vcn: u64) -> (r: Result<
    Vec<DataRun>,
    RunlistError,
>)
    requires
        attr_end <= record@.len(),
    ensures
        r matches Ok(v) ==> decode_runs(record@, run_off as int, attr_end as int, start_vcn as int, 0)
            == Ok::<Seq<DataRun>, RunlistError>(v@),
        r matches Err(e) ==> decode_runs(record@, run_off as int, attr_end as int, start_vcn as int, 0)
            == Err::<Seq<DataRun>, RunlistError>(e),
{
    let mut runs: Vec<DataRun> = Vec::new();
    let mut off = run_off;
    let mut current_vcn: u64 = start_vcn;
    let mut current_lcn: i64 = 0;
    proof {
        lemma_prepend_empty(decode_runs(record@, run_off as int, attr_end as int, start_vcn as int, 0));
    }
    loop
        invariant
            attr_end <= record@.len(),
            decode_runs(record@, run_off as int, attr_end as int, start_vcn as int, 0)
                == prepend_runs(runs@, decode_runs(record@, off as int, attr_end as int, current_vcn as int, current_lcn as int)),
        decreases attr_end - off,
    {
        if off >= attr_end {
            assert(decode_runs(record@, off as int, attr_end as int, current_vcn as int, current_lcn as int)
                == Ok::<Seq<DataRun>, RunlistError>(Seq::empty()));
            assert(runs@ + Seq::empty() =~= runs@);
            return Ok(runs);
        }
        let header = record[off];
        if header == 0 {
            assert(runs@ + Seq::empty() =~= runs@);
            return Ok(runs);
        }
        let len_bytes = (header % 16) as usize;
        let off_bytes = (header / 16) as usize;
        if len_bytes == 0 || len_bytes > 8 || off_bytes > 8 {
            return Err(RunlistError::BadHeader);
        }
        if off_bytes + len_bytes + 1 > attr_end - off {
            return Err(RunlistError::OutOfBounds);
        }
        let p = off + 1;
        let run_length = read_le(record, p, len_bytes);
        if run_length == 0 {
            return Err(RunlistError::ZeroLength);
        }
        let q = p + len_bytes;
        let mut delta: i128 = 0;
        if off_bytes > 0 {
            let raw = read_le(record, q, off_bytes);
            let span = pow256_exec(off_bytes);
            proof {
                lemma_pow256_values();
                lemma_pow256_monotone(off_bytes as nat, 8);
            }
            if record[q + off_bytes - 1] >= 0x80 {
                delta = raw as i128 - span as i128;
            } else {
                delta = raw as i128;
            }
            proof {
                lemma_le_value_bound(record@, q as int, off_bytes as nat);
                lemma_pow256_values();
                lemma_pow256_monotone(off_bytes as nat, 8);
            }
        }
        assert(delta == signed_le(record@, q as int, off_bytes as nat));
        let new_lcn: i128 = current_lcn as i128 + delta;
        if new_lcn < -0x8000_0000_0000_0000i128 || new_lcn > 0x7FFF_FFFF_FFFF_FFFFi128 {
            return Err(RunlistError::Overflow);
        }
        if off_bytes > 0 && new_lcn < 0 {
            return Err(RunlistError::NegativeLcn);
        }
        let is_sparse = off_bytes == 0;
        let lcn: u64 = if is_sparse { 0 } else { new_lcn as u64 };
        let run = DataRun { vcn_start: current_vcn, length: run_length, lcn, is_sparse };
        match current_vcn.checked_add(run_length) {
            None => {
                return Err(RunlistError::Overflow);
            },
            Some(v) => {
                let ghost old_runs = runs@;
                runs.push(run);
                off = q + off_bytes;
                proof {
                    lemma_prepend_assoc(
                        old_runs,
                        seq![run],
                        decode_runs(record@, off as int, attr_end as int, v as int, new_lcn as int),
                    );
                    assert(old_runs + seq![run] =~= runs@);
                }
                current_vcn = v;
                current_lcn = new_lcn as i64;
            },
        }
    }
}

} // verus!

verus! {

/// The runs are ordered by their first virtual cluster.
pub open spec fn sorted_by_vcn(s: Seq<DataRun>) -> bool {
    forall|i: int, j: int| 0 <= i < j < s.len() ==> s[i].vcn_start <= s[j].vcn_start
}

/// The number of clusters covered by the first `k` runs.
pub open spec fn clusters_before(s: Seq<DataRun>, k: int) -> nat
    decreases k,
{
    if k <= 0 || k > s.len() {
        0
    } else {
        (clusters_before(s, k - 1) + s[k - 1].length) as nat
    }
}

/// Each run starts where the previous one ends, the first at VCN 0.
pub open spec fn contiguous_from_zero(s: Seq<DataRun>) -> bool {
    forall|k: int| 0 <= k < s.len() ==> s[k].vcn_start == clusters_before(s, k)
}

/// The runlist is accepted: non-empty, gap-free and overlap-free from VCN 0, its size in
/// clusters and in bytes fits in 64 bits and is no smaller than a non-zero `allocated` size.
pub open spec fn runlist_accepted(s: Seq<DataRun>, bpc: nat, allocated: nat) -> bool {
    &&& s.len() > 0
    &&& contiguous_from_zero(s)
    &&& clusters_before(s, s.len() as int) <= u64::MAX
    &&& clusters_before(s, s.len() as int) * bpc <= u64::MAX
    &&& (allocated == 0 || clusters_before(s, s.len() as int) * bpc >= allocated)
}

/// Sorts runs by their first virtual cluster.
pub fn sort_runs(runs: &mut Vec<DataRun>)
    ensures
        final(runs)@.to_multiset() == old(runs)@.to_multiset(),
        final(runs)@.len() == old(runs)@.len(),
        sorted_by_vcn(final(runs)@),
{
    broadcast use vstd::seq_lib::group_to_multiset_ensures;

    let n = runs.len();
    let mut i: usize = 1;
    while i < n
        invariant
            n == runs@.len(),
            1 <= i,
            i <= n || n == 0,
            runs@.to_multiset() == old(runs)@.to_multiset(),
            forall|a: int, b: int| 0 <= a < b < i && b < n ==> runs@[a].vcn_start <= runs@[b].vcn_start,
        decreases n - i,
    {
        let mut j: usize = i;
        while j > 0 && runs[j - 1].vcn_start > runs[j].vcn_start
            invariant
                n == runs@.len(),
                0 <= j <= i < n,
                runs@.to_multiset() == old(runs)@.to_multiset(),
                forall|a: int, b: int|
                    0 <= a < b <= i && b != j ==> runs@[a].vcn_start <= runs@[b].vcn_start,
                forall|a: int| j < a <= i ==> runs@[j as int].vcn_start < runs@[a].vcn_start,
            decreases j,
        {
            let a = runs[j - 1];
            let b = runs[j];
            let ghost before = runs@;
            runs.set(j - 1, b);
            runs.set(j, a);
            proof {
                let mid = before.update(j - 1, b);
                assert(runs@ == mid.update(j as int, a));
                vstd::seq_lib::to_multiset_update(before, j - 1, b);
                vstd::seq_lib::to_multiset_update(mid, j as int, a);
                assert(mid[j as int] == b);
                before.to_multiset_ensures();
                assert(before[j - 1] == a);
                assert(before.contains(a));
                let m0 = before.to_multiset();
                assert(m0.count(a) > 0);
                assert(m0.insert(b).remove(a) =~= m0.remove(a).insert(b));
                assert(m0.remove(a).insert(a) =~= m0);
                assert(before.to_multiset().insert(b).remove(a).insert(a).remove(b) =~= before.to_multiset());
            }
            j = j - 1;
        }
        i = i + 1;
    }
}

} // verus!

verus! {

proof fn lemma_clusters_monotone(s: Seq<DataRun>, i: int, j: int)
    requires
        0 <= i <= j <= s.len(),
    ensures
        clusters_before(s, i) <= clusters_before(s, j),
    decreases j - i,
{
    if i < j {
        lemma_clusters_monotone(s, i, j - 1);
    }
}

/// Checks that sorted runs cover the VCNs from 0 with no gap and no overlap, and returns
/// their size in bytes.
pub fn validate_runlist(runs: &Vec<DataRun>, bpc: u64, allocated: u64) -> (r: Result<u64, RunlistError>)
    ensures
        r is Ok <==> runlist_accepted(runs@, bpc as nat, allocated as nat),
        r matches Ok(t) ==> t as nat == clusters_before(runs@, runs@.len() as int) * bpc,
        runs@.len() == 0 ==> r == Err::<u64, RunlistError>(RunlistError::Empty),
{
    let n = runs.len();
    if n == 0 {
        return Err(RunlistError::Empty);
    }
    let mut expected: u64 = 0;
    let mut i: usize = 0;
    while i < n
        invariant
            n == runs@.len(),
            i <= n,
            expected as nat == clusters_before(runs@, i as int),
            forall|k: int| 0 <= k < i ==> runs@[k].vcn_start == clusters_before(runs@, k),
        decreases n - i,
    {
        let run = runs[i];
        if run.vcn_start > expected {
            return Err(RunlistError::Gap);
        } else if run.vcn_start < expected {
            return Err(RunlistError::Overlap);
        }
        match expected.checked_add(run.length) {
            None => {
                proof {
                    lemma_clusters_monotone(runs@, i + 1, n as int);
                    assert(clusters_before(runs@, n as int) > u64::MAX);
                }
                return Err(RunlistError::Overflow);
            },
            Some(v) => {
                expected = v;
            },
        }
        i = i + 1;
    }
    assert(contiguous_from_zero(runs@));
    match expected.checked_mul(bpc) {
        None => Err(RunlistError::Overflow),
        Some(total) => {
            if allocated > 0 && total < allocated {
                Err(RunlistError::Short)
            } else {
                Ok(total)
            }
        },
    }
}

} // verus!

verus! {

/// Sorts the runs by VCN and checks the result as a whole; returns the size in bytes.
pub fn assemble_runlist(runs: &mut Vec<DataRun>, bpc: u64, allocated: u64) -> (r: Result<u64, RunlistError>)
    ensures
        final(runs)@.to_multiset() == old(runs)@.to_multiset(),
        sorted_by_vcn(final(runs)@),
        r is Ok <==> runlist_accepted(final(runs)@, bpc as nat, allocated as nat),
        r matches Ok(t) ==> t as nat == clusters_before(final(runs)@, final(runs)@.len() as int) * bpc,
        old(runs)@.len() == 0 ==> r == Err::<u64, RunlistError>(RunlistError::Empty),
{
    sort_runs(runs);
    validate_runlist(runs, bpc, allocated)
}

/// An accepted runlist starts at VCN 0, each run begins exactly where the previous one
/// ends (so the runs are in VCN order), and it covers at least the allocated size.
pub proof fn lemma_accepted_runlist_shape(s: Seq<DataRun>, bpc: nat, allocated: nat)
    requires
        runlist_accepted(s, bpc, allocated),
    ensures
        s[0].vcn_start == 0,
        forall|i: int| 0 <= i < s.len() - 1 ==> s[i].vcn_start + s[i].length == s[i + 1].vcn_start,
        sorted_by_vcn(s),
        allocated == 0 || clusters_before(s, s.len() as int) * bpc >= allocated,
{
    assert(s[0].vcn_start == clusters_before(s, 0));
    assert forall|i: int| 0 <= i < s.len() - 1 implies s[i].vcn_start + s[i].length == s[i + 1].vcn_start by {
        assert(s[i + 1].vcn_start == clusters_before(s, i + 1));
        assert(s[i].vcn_start == clusters_before(s, i));
        assert(clusters_before(s, i + 1) == clusters_before(s, i) + s[i].length);
    }
    assert forall|i: int, j: int| 0 <= i < j < s.len() implies s[i].vcn_start <= s[j].vcn_start by {
        lemma_clusters_monotone(s, i, j);
        assert(s[i].vcn_start == clusters_before(s, i));
        assert(s[j].vcn_start == clusters_before(s, j));
    }
}

} // verus!
