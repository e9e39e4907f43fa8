//! The update sequence array (USA) fixup protocol of multi-sector records.
use vstd::prelude::*;
use crate::record::MftRecordHeader;

verus! {

/// The outcome of applying fixups to a record.
#[derive(Debug, Clone, Copy, PartialEq, Eq, Structural)]
pub enum FixupResult {
    /// Every sector tail carried the expected tag.
    Clean,
    /// At least one sector tail did not carry the expected tag (a torn write); the
    /// fixups were applied all the same.
    TornWrite,
    /// The record or its USA is structurally unusable; the buffer is left unchanged.
    Failed,
}

/// The record cannot take fixups: sectors under 2 bytes, a record that is not a whole
/// number of sectors, or a USA that is too short or runs past the buffer.
pub open spec fn fixup_fails(len: nat, usa_off: nat, usa_count: nat, bps: nat) -> bool {
    bps < 2 || len % bps != 0 || usa_count < 2 || usa_off + 2 * usa_count > len
}

/// How many sectors take a fixup.
pub open spec fn fixup_count(len: nat, usa_count: nat, bps: nat) -> nat {
    let sectors = len / bps;
    if (usa_count - 1) as nat <= sectors {
        (usa_count - 1) as nat
    } else {
        sectors
    }
}

/// Sectors `i..=max` take their fixups in turn: the tag in each sector's last two bytes is
/// compared with `(t0, t1)`, then those bytes are replaced by USA slot `i`. Returns the
/// buffer and whether any tag differed (or `torn` was already set).
pub open spec fn fixups_from(
    d: Seq<u8>,
    i: nat,
    max: nat,
    bps: nat,
    usa_off: nat,
    t0: u8,
    t1: u8,
    torn: bool,
) -> (Seq<u8>, bool)
    decreases max + 1 - i,
{
    if i > max || i == 0 {
        (d, torn)
    } else {
        let tail = (i * bps - 2) as int;
        let slot = (usa_off + 2 * i) as int;
        let torn2 = torn || d[tail] != t0 || d[tail + 1] != t1;
        let d1 = d.update(tail, d[slot]);
        let d2 = d1.update(tail + 1, d1[slot + 1]);
        fixups_from(d2, i + 1, max, bps, usa_off, t0, t1, torn2)
    }
}

/// The buffer and result after applying fixups to `d`.
pub open spec fn fixup_spec(d: Seq<u8>, usa_off: nat, usa_count: nat, bps: nat) -> (Seq<u8>, FixupResult) {
    if fixup_fails(d.len(), usa_off, usa_count, bps) {
        (d, FixupResult::Failed)
    } else {
        let r = fixups_from(
            d,
            1,
            fixup_count(d.len(), usa_count, bps),
            bps,
            usa_off,
            d[usa_off as int],
            d[usa_off + 1int],
            false,
        );
        (r.0, if r.1 { FixupResult::TornWrite } else { FixupResult::Clean })
    }
}

/// Applies the record's USA fixups in place: checks each sector's tag and restores its
/// real last two bytes.
pub fn apply_fixups(data: &mut Vec<u8>, header: &MftRecordHeader, bytes_per_sector: u16) -> (r: FixupResult)
    ensures
        (final(data)@, r) == fixup_spec(
            old(data)@,
            header.update_sequence_offset as nat,
            header.update_sequence_size as nat,
            bytes_per_sector as nat,
        ),
        final(data)@.len() == old(data)@.len(),
{
    let bps = bytes_per_sector as usize;
    let len = data.len();
    if bps < 2 || len % bps != 0 {
        return FixupResult::Failed;
    }
    let usa_offset = header.update_sequence_offset as usize;
    let usa_count = header.update_sequence_size as usize;
    if usa_count < 2 || usa_offset + usa_count * 2 > len {
        return FixupResult::Failed;
    }
    let t0 = data[usa_offset];
    let t1 = data[usa_offset + 1];
    let sectors = len / bps;
    let max_fixups = if usa_count - 1 <= sectors { usa_count - 1 } else { sectors };
    let mut torn = false;
    let mut i: usize = 1;
    let ghost d0 = data@;
    proof {
        assert(sectors * bps <= len) by (nonlinear_arith)
            requires
                sectors == len / bps,
                bps > 0,
        ;
    }
    while i <= max_fixups
        invariant
            len == data@.len(),
            2 <= bps,
            sectors * bps <= len,
            1 <= i <= max_fixups + 1,
            max_fixups <= sectors,
            max_fixups == usa_count - 1 || max_fixups == sectors,
            max_fixups <= usa_count - 1,
            usa_offset + usa_count * 2 <= len,
            max_fixups == fixup_count(len as nat, usa_count as nat, bps as nat),
            fixups_from(d0, 1, max_fixups as nat, bps as nat, usa_offset as nat, t0, t1, false)
                == fixups_from(data@, i as nat, max_fixups as nat, bps as nat, usa_offset as nat, t0, t1, torn),
        decreases max_fixups + 1 - i,
    {
        assert(i * bps <= sectors * bps) by (nonlinear_arith)
            requires
                i <= sectors,
        ;
        assert(i * bps >= 2) by (nonlinear_arith)
            requires
                i >= 1,
                bps >= 2,
        ;
        let tail = i * bps - 2;
        if data[tail] != t0 || data[tail + 1] != t1 {
            torn = true;
        }
        let slot = usa_offset + i * 2;
        let v0 = data[slot];
        data.set(tail, v0);
        let v1 = data[slot + 1];
        data.set(tail + 1, v1);
        i = i + 1;
    }
    if torn {
        FixupResult::TornWrite
    } else {
        FixupResult::Clean
    }
}

} // verus!

verus! {

/// `b` as NTFS writes it to disk: the last two bytes of each of its sectors replaced by the
/// tag `(t0, t1)`.
pub open spec fn tag_sectors(b: Seq<u8>, bps: nat, t0: u8, t1: u8) -> Seq<u8> {
    Seq::new(
        b.len(),
        |p: int|
            if p % (bps as int) == bps - 2 {
                t0
            } else if p % (bps as int) == bps - 1 {
                t1
            } else {
                b[p]
            },
    )
}

/// `b` is laid out for `k` USA slots over `k - 1` sectors of `bps` bytes, its USA lies in
/// the first sector before that sector's tail, the first slot holds the tag `(t0, t1)`, and
/// slot `i` holds the real last two bytes of sector `i`.
pub open spec fn usa_holds_tails(b: Seq<u8>, usa_off: nat, k: nat, bps: nat, t0: u8, t1: u8) -> bool {
    &&& bps >= 2
    &&& k >= 2
    &&& b.len() == (k - 1) * bps
    &&& usa_off + 2 * k <= bps - 2
    &&& b[usa_off as int] == t0
    &&& b[usa_off + 1int] == t1
    &&& forall|i: int| 1 <= i < k ==> #[trigger] slot_holds_tail(b, usa_off, bps, i)
}

/// USA slot `i` holds the last two bytes of sector `i`.
pub open spec fn slot_holds_tail(b: Seq<u8>, usa_off: nat, bps: nat, i: int) -> bool {
    b[usa_off + 2 * i] == b[i * bps - 2] && b[usa_off + 2 * i + 1] == b[i * bps - 1]
}

proof fn lemma_pos_in_sector(p: int, i: int, bps: int)
    requires
        bps > 0,
        i >= 1,
        (i - 1) * bps <= p < i * bps,
    ensures
        p % bps == p - (i - 1) * bps,
        p / bps == i - 1,
{
    assert((i - 1) * bps + bps == i * bps) by (nonlinear_arith);
    vstd::arithmetic::div_mod::lemma_fundamental_div_mod_converse(p, bps, i - 1, p - (i - 1) * bps);
}

proof fn lemma_fixups_restore(
    b: Seq<u8>,
    d: Seq<u8>,
    i: nat,
    usa_off: nat,
    k: nat,
    bps: nat,
    t0: u8,
    t1: u8,
)
    requires
        usa_holds_tails(b, usa_off, k, bps, t0, t1),
        1 <= i <= k,
        d.len() == b.len(),
        forall|p: int| 0 <= p < (i - 1) * bps ==> d[p] == b[p],
        forall|p: int| (i - 1) * bps <= p < b.len() ==> d[p] == tag_sectors(b, bps, t0, t1)[p],
    ensures
        fixups_from(d, i, (k - 1) as nat, bps, usa_off, t0, t1, false) == (b, false),
    decreases k - i,
{
    let max = (k - 1) as nat;
    let tb = tag_sectors(b, bps, t0, t1);
    if i > max {
        assert((i - 1) * bps == b.len()) by (nonlinear_arith)
            requires
                i == k,
                b.len() == (k - 1) * bps,
        ;
        assert(d =~= b);
    } else {
        let bi = bps as int;
        let tail = (i * bps - 2) as int;
        let slot = (usa_off + 2 * i) as int;
        assert(i * bi == (i - 1) * bi + bi) by (nonlinear_arith);
        assert(i * bi <= b.len()) by (nonlinear_arith)
            requires
                i <= k - 1,
                b.len() == (k - 1) * bi,
                bi >= 0,
        ;
        assert((i - 1) * bi >= 0) by (nonlinear_arith)
            requires
                i >= 1,
                bi >= 0,
        ;
        lemma_pos_in_sector(tail, i as int, bi);
        lemma_pos_in_sector(tail + 1, i as int, bi);
        assert(d[tail] == t0 && d[tail + 1] == t1);
        if i == 1 {
            assert(slot % bi == slot && (slot + 1) % bi == slot + 1) by {
                lemma_pos_in_sector(slot, 1, bi);
                lemma_pos_in_sector(slot + 1, 1, bi);
            }
            assert(d[slot] == b[slot]);
            assert(d[slot + 1] == b[slot + 1]);
        } else {
            assert(bi <= (i - 1) * bi) by (nonlinear_arith)
                requires
                    i >= 2,
                    bi >= 0,
            ;
            assert(d[slot] == b[slot]);
            assert(d[slot + 1] == b[slot + 1]);
        }
        let ii = i as int;
        assert(slot_holds_tail(b, usa_off, bps, ii));
        assert(b[slot] == b[tail] && b[slot + 1] == b[tail + 1]);
        let d1 = d.update(tail, d[slot]);
        assert(d1[slot + 1] == d[slot + 1]);
        let d2 = d1.update(tail + 1, d1[slot + 1]);
        assert forall|p: int| 0 <= p < i * bi implies d2[p] == b[p] by {
            if p < (i - 1) * bi {
            } else if p != tail && p != tail + 1 {
                lemma_pos_in_sector(p, i as int, bi);
                assert(d[p] == tb[p]);
            }
        }
        assert forall|p: int| i * bi <= p < b.len() implies d2[p] == tb[p] by {}
        lemma_fixups_restore(b, d2, i + 1, usa_off, k, bps, t0, t1);
    }
}

/// Fixups undo the tagging of sectors: a buffer whose USA holds its sectors' real tails,
/// once its sector tails are replaced by the tag, comes back unchanged, as a clean record.
pub proof fn lemma_fixup_round_trip(b: Seq<u8>, usa_off: nat, k: nat, bps: nat, t0: u8, t1: u8)
    requires
        usa_holds_tails(b, usa_off, k, bps, t0, t1),
    ensures
        fixup_spec(tag_sectors(b, bps, t0, t1), usa_off, k, bps) == (b, FixupResult::Clean),
{
    let tb = tag_sectors(b, bps, t0, t1);
    let bi = bps as int;
    assert((b.len() as int) % bi == 0 && (b.len() as int) / bi == k - 1) by {
        vstd::arithmetic::div_mod::lemma_fundamental_div_mod_converse(b.len() as int, bi, (k - 1) as int, 0);
    }
    assert(usa_off + 2 * k <= b.len()) by (nonlinear_arith)
        requires
            usa_off + 2 * k <= bps - 2,
            b.len() == (k - 1) * bps,
            k >= 2,
    ;
    lemma_pos_in_sector(usa_off as int, 1, bi);
    lemma_pos_in_sector(usa_off + 1int, 1, bi);
    assert(tb[usa_off as int] == t0 && tb[usa_off + 1int] == t1);
    assert(fixup_count(b.len(), k, bps) == k - 1);
    lemma_fixups_restore(b, tb, 1, usa_off, k, bps, t0, t1);
}

} // verus!

verus! {

proof fn lemma_torn_sticky(d: Seq<u8>, i: nat, max: nat, bps: nat, usa_off: nat, t0: u8, t1: u8)
    ensures
        fixups_from(d, i, max, bps, usa_off, t0, t1, true).1,
    decreases max + 1 - i,
{
    if !(i > max || i == 0) {
        let tail = (i * bps - 2) as int;
        let slot = (usa_off + 2 * i) as int;
        let d1 = d.update(tail, d[slot]);
        let d2 = d1.update(tail + 1, d1[slot + 1]);
        lemma_torn_sticky(d2, i + 1, max, bps, usa_off, t0, t1);
    }
}

proof fn lemma_torn_found(
    e: Seq<u8>,
    d: Seq<u8>,
    i: nat,
    j: nat,
    max: nat,
    bps: nat,
    usa_off: nat,
    t0: u8,
    t1: u8,
    torn: bool,
)
    requires
        bps >= 2,
        1 <= i <= j <= max,
        e.len() == d.len() == max * bps,
        forall|p: int| (i - 1) * bps <= p < d.len() ==> e[p] == d[p],
        d[j * bps - 2] != t0 || d[j * bps - 1] != t1,
    ensures
        fixups_from(e, i, max, bps, usa_off, t0, t1, torn).1,
    decreases j - i,
{
    let bi = bps as int;
    let tail = (i * bps - 2) as int;
    let slot = (usa_off + 2 * i) as int;
    let torn2 = torn || e[tail] != t0 || e[tail + 1] != t1;
    let d1 = e.update(tail, e[slot]);
    let d2 = d1.update(tail + 1, d1[slot + 1]);
    assert(i * bi == (i - 1) * bi + bi) by (nonlinear_arith);
    assert(i * bi <= max * bi) by (nonlinear_arith)
        requires
            i <= max,
            bi >= 0,
    ;
    if torn2 {
        lemma_torn_sticky(d2, i + 1, max, bps, usa_off, t0, t1);
    } else if i == j {
        assert(e[tail] == d[tail] && e[tail + 1] == d[tail + 1]);
    } else {
        assert(i * bi <= (j - 1) * bi) by (nonlinear_arith)
            requires
                i <= j - 1,
                bi >= 0,
        ;
        assert forall|p: int| i * bi <= p < d.len() implies d2[p] == d[p] by {}
        lemma_torn_found(d2, d, i + 1, j, max, bps, usa_off, t0, t1, torn2);
    }
}

/// A tagged buffer in which the tail of one sector no longer carries the tag is reported
/// as a torn write.
pub proof fn lemma_fixup_detects_torn_sector(
    b: Seq<u8>,
    d: Seq<u8>,
    j: nat,
    usa_off: nat,
    k: nat,
    bps: nat,
    t0: u8,
    t1: u8,
)
    requires
        usa_holds_tails(b, usa_off, k, bps, t0, t1),
        1 <= j < k,
        d.len() == b.len(),
        forall|p: int|
            0 <= p < d.len() && p != j * bps - 2 && p != j * bps - 1 ==> d[p] == tag_sectors(b, bps, t0, t1)[p],
        d[j * bps - 2] != t0 || d[j * bps - 1] != t1,
    ensures
        fixup_spec(d, usa_off, k, bps).1 == FixupResult::TornWrite,
{
    let tb = tag_sectors(b, bps, t0, t1);
    let bi = bps as int;
    assert((b.len() as int) % bi == 0 && (b.len() as int) / bi == k - 1) by {
        vstd::arithmetic::div_mod::lemma_fundamental_div_mod_converse(b.len() as int, bi, (k - 1) as int, 0);
    }
    assert(usa_off + 2 * k <= b.len()) by (nonlinear_arith)
        requires
            usa_off + 2 * k <= bps - 2,
            b.len() == (k - 1) * bps,
            k >= 2,
    ;
    assert(j * bi >= bi) by (nonlinear_arith)
        requires
            j >= 1,
            bi >= 0,
    ;
    lemma_pos_in_sector(usa_off as int, 1, bi);
    lemma_pos_in_sector(usa_off + 1int, 1, bi);
    assert(d[usa_off as int] == t0 && d[usa_off + 1int] == t1);
    assert(fixup_count(d.len(), k, bps) == k - 1);
    lemma_torn_found(d, d, 1, j, (k - 1) as nat, bps, usa_off, t0, t1, false);
}

} // verus!
