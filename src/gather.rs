//! Gathering a logical record: its base record and the extent records that its resident
//! `$ATTRIBUTE_LIST` names.
use vstd::prelude::*;
use crate::attrs::{
    AttrHeader, ATTR_ATTRIBUTE_LIST, attribute_headers, ref_entry, reference_entry, resident_value,
    resident_value_spec, used_end, used_end_spec, walk_attrs,
};
use crate::bytes::{le16, le32, le64, read_u16_le, read_u32_le, read_u64_le};
use crate::fixup::{FixupResult, apply_fixups, fixup_spec};
use crate::record::{MftRecordHeader, decode_header};

verus! {

/// The entry numbers named by the attribute-list entries at `off..end`, in order. The walk
/// stops at a zero type, a zero length, or an entry that runs past `end`.
pub open spec fn list_refs(s: Seq<u8>, off: int, end: int) -> Seq<u64>
    decreases end - off,
{
    if off < 0 || off + 26 > end || end > s.len() {
        Seq::empty()
    } else {
        let len = le16(s, off + 4) as int;
        if le32(s, off) == 0 || len == 0 || off + len > end {
            Seq::empty()
        } else {
            seq![ref_entry(le64(s, off + 16))] + list_refs(s, off + len, end)
        }
    }
}

/// The entry numbers named by the resident `$ATTRIBUTE_LIST`s among `attrs`.
pub open spec fn refs_in_attrs(s: Seq<u8>, attrs: Seq<AttrHeader>) -> Seq<u64>
    decreases attrs.len(),
{
    if attrs.len() == 0 {
        Seq::empty()
    } else {
        let a = attrs.last();
        let here = if a.attr_type == 0x20 && !a.non_resident {
            match resident_value_spec(s, a) {
                Some(v) => list_refs(s, v.0 as int, (v.0 + v.1) as int),
                None => Seq::empty(),
            }
        } else {
            Seq::empty()
        };
        refs_in_attrs(s, attrs.drop_last()) + here
    }
}

/// The attributes of a record, walked as the parser walks them.
pub open spec fn record_attrs(s: Seq<u8>, h: MftRecordHeader, record_size: nat) -> Seq<AttrHeader> {
    walk_attrs(
        s,
        h.first_attribute_offset as int,
        used_end_spec(h.real_size as nat, h.first_attribute_offset as nat, record_size) as int,
    ).0
}

/// An extent worth fetching for `entry`: not the entry itself, not 0, inside the file.
pub open spec fn fetchable(x: u64, entry: u64, total_records: u64) -> bool {
    x != entry && x > 0 && x < total_records
}

proof fn lemma_concat_contains(p: Seq<u64>, q: Seq<u64>)
    ensures
        forall|y: u64| #[trigger] (p + q).contains(y) <==> (p.contains(y) || q.contains(y)),
{
    assert forall|y: u64| #[trigger] (p + q).contains(y) <==> (p.contains(y) || q.contains(y)) by {
        if (p + q).contains(y) {
            let j = choose|j: int| 0 <= j < (p + q).len() && (p + q)[j] == y;
            if j >= p.len() {
                assert(q[j - p.len()] == y);
            } else {
                assert(p[j] == y);
            }
        }
        if p.contains(y) {
            let j = choose|j: int| 0 <= j < p.len() && p[j] == y;
            assert((p + q)[j] == y);
        }
        if q.contains(y) {
            let j = choose|j: int| 0 <= j < q.len() && q[j] == y;
            assert((p + q)[p.len() + j] == y);
        }
    }
}

proof fn lemma_contains_cons(x: u64, rest: Seq<u64>)
    ensures
        forall|y: u64| #[trigger] (seq![x] + rest).contains(y) <==> (y == x || rest.contains(y)),
{
    assert forall|y: u64| #[trigger] (seq![x] + rest).contains(y) <==> (y == x || rest.contains(y)) by {
        if (seq![x] + rest).contains(y) {
            let i = choose|i: int| 0 <= i < (seq![x] + rest).len() && (seq![x] + rest)[i] == y;
            if i > 0 {
                assert(rest[i - 1] == y);
            }
        }
        if rest.contains(y) {
            let i = choose|i: int| 0 <= i < rest.len() && rest[i] == y;
            assert((seq![x] + rest)[i + 1] == y);
        }
        if y == x {
            assert((seq![x] + rest)[0] == y);
        }
    }
}

/// Appends to `out` the entries of the attribute list at `off..end` that are fetchable and
/// not yet in `out`.
fn add_list_refs(buf: &[u8], off: usize, end: usize, entry: u64, total_records: u64, prev: Vec<u64>) -> (out: Vec<u64>)
    requires
        end <= buf@.len(),
        prev@.no_duplicates(),
    ensures
        out@.no_duplicates(),
        forall|x: u64|
            out@.contains(x) <==> (prev@.contains(x) || (list_refs(buf@, off as int, end as int).contains(x)
                && fetchable(x, entry, total_records))),
{
    let n = buf.len();
    let mut cur = off;
    let mut out = prev;
    let ghost init = out@;
    loop
        invariant
            end <= buf@.len() == n,
            out@.no_duplicates(),
            init == prev@,
            forall|x: u64|
                (init.contains(x) || (list_refs(buf@, off as int, end as int).contains(x) && fetchable(x, entry, total_records)))
                    <==> (#[trigger] out@.contains(x) || (list_refs(buf@, cur as int, end as int).contains(x) && fetchable(
                    x,
                    entry,
                    total_records,
                ))),
        decreases end - cur,
    {
        if cur > end || end - cur < 26 {
            assert(list_refs(buf@, cur as int, end as int) =~= Seq::<u64>::empty());
            assert forall|x: u64|
                out@.contains(x) <==> (init.contains(x) || (list_refs(buf@, off as int, end as int).contains(x)
                    && fetchable(x, entry, total_records))) by {
                assert(!list_refs(buf@, cur as int, end as int).contains(x));
            }
            return out;
        }
        let t = read_u32_le(buf, cur);
        let len = read_u16_le(buf, cur + 4) as usize;
        if t == 0 || len == 0 || len > end - cur {
            assert(list_refs(buf@, cur as int, end as int) =~= Seq::<u64>::empty());
            assert forall|x: u64|
                out@.contains(x) <==> (init.contains(x) || (list_refs(buf@, off as int, end as int).contains(x)
                    && fetchable(x, entry, total_records))) by {
                assert(!list_refs(buf@, cur as int, end as int).contains(x));
            }
            return out;
        }
        let x = reference_entry(read_u64_le(buf, cur + 16));
        let ghost out_before = out@;
        assert(forall|y: u64| (init.contains(y) || (list_refs(buf@, off as int, end as int).contains(y)
                        && fetchable(y, entry, total_records))) <==> (#[trigger] out_before.contains(y) || (list_refs(buf@, cur as int, end as int).contains(y)
                        && fetchable(y, entry, total_records))));
        proof {
            let rest = list_refs(buf@, (cur + len) as int, end as int);
            assert(list_refs(buf@, cur as int, end as int) == seq![x] + rest);
            lemma_contains_cons(x, rest);
        }
        if x != entry && x > 0 && x < total_records {
            let mut k: usize = 0;
            let mut seen = false;
            while k < out.len()
                invariant
                    k <= out@.len(),
                    out@ == out_before,
                    seen <==> exists|i: int| 0 <= i < k && out@[i] == x,
                decreases out@.len() - k,
            {
                if out[k] == x {
                    seen = true;
                }
                k = k + 1;
            }
            if seen {
                proof {
                    let i = choose|i: int| 0 <= i < k && out@[i] == x;
                    assert(out@.contains(x));
                }
            }
            if !seen {
                let ghost before = out@;
                out.push(x);
                proof {
                    assert forall|y: u64| out@.contains(y) <==> (before.contains(y) || y == x) by {
                        if out@.contains(y) {
                            let i = choose|i: int| 0 <= i < out@.len() && out@[i] == y;
                            if i < before.len() {
                                assert(before[i] == y);
                            }
                        }
                        if before.contains(y) {
                            let i = choose|i: int| 0 <= i < before.len() && before[i] == y;
                            assert(out@[i] == y);
                        }
                        if y == x {
                            assert(out@[before.len() as int] == y);
                        }
                    }
                    assert(out@[before.len() as int] == x);
                    assert(out@.contains(x));
                    assert(!before.contains(x));
                    assert forall|p: int, q: int| 0 <= p < out@.len() && 0 <= q < out@.len() && p != q implies out@[p] != out@[q] by {
                        if p < before.len() && q < before.len() {
                            assert(before[p] != before[q]);
                        } else if p < before.len() {
                            assert(before[p] != x);
                        } else if q < before.len() {
                            assert(before[q] != x);
                        }
                    }
                }
            }
            assert(out@.contains(x));
        }
        let ghost prev_cur = cur;
        cur = cur + len;
        proof {
            assert(out@.contains(x) || !fetchable(x, entry, total_records));
            assert forall|y: u64|
                (init.contains(y) || (list_refs(buf@, off as int, end as int).contains(y) && fetchable(y, entry, total_records)))
                    <==> (#[trigger] out@.contains(y) || (list_refs(buf@, cur as int, end as int).contains(y) && fetchable(y, entry, total_records))) by {
                assert((init.contains(y) || (list_refs(buf@, off as int, end as int).contains(y)
                        && fetchable(y, entry, total_records))) <==> (out_before.contains(y) || (list_refs(buf@, prev_cur as int, end as int).contains(y)
                        && fetchable(y, entry, total_records))));
                assert((seq![x] + list_refs(buf@, cur as int, end as int)).contains(y) <==> (y == x || list_refs(buf@, cur as int, end as int).contains(y)));
                if y == x && fetchable(x, entry, total_records) {
                    assert(out@.contains(x));
                }
            }
        }
    }
}

/// The extents that a base record's resident `$ATTRIBUTE_LIST`s name (each once), and
/// whether it has a non-resident `$ATTRIBUTE_LIST`, which is not followed.
pub fn extent_references(base: &[u8], entry_num: u64, record_size: usize, total_records: u64) -> (r: (
    Vec<u64>,
    bool,
))
    ensures
        r.0@.no_duplicates(),
        match decode_header(base@) {
            None => r.0@.len() == 0 && !r.1,
            Some(h) => {
                let attrs = record_attrs(base@, h, record_size as nat);
                &&& forall|x: u64|
                    r.0@.contains(x) <==> (refs_in_attrs(base@, attrs).contains(x) && fetchable(x, entry_num, total_records))
                &&& r.1 == exists|k: int| 0 <= k < attrs.len() && attrs[k].attr_type == 0x20 && attrs[k].non_resident
            },
        },
{
    let mut out: Vec<u64> = Vec::new();
    let header = match MftRecordHeader::parse(base) {
        Some(h) => h,
        None => {
            return (out, false);
        },
    };
    let end = used_end(header.real_size, header.first_attribute_offset, record_size);
    let (attrs, _) = attribute_headers(base, header.first_attribute_offset as usize, end);
    let ghost all = attrs@;
    let mut complex = false;
    let mut i: usize = 0;
    let blen = base.len();
    while i < attrs.len()
        invariant
            i <= attrs@.len(),
            base@.len() == blen,
            all == attrs@,
            all == record_attrs(base@, header, record_size as nat),
            out@.no_duplicates(),
            forall|k: int| 0 <= k < all.len() ==> all[k].offset + all[k].length <= base@.len(),
            forall|x: u64|
                out@.contains(x) <==> (refs_in_attrs(base@, all.subrange(0, i as int)).contains(x) && fetchable(
                    x,
                    entry_num,
                    total_records,
                )),
            complex == exists|k: int| 0 <= k < i && all[k].attr_type == 0x20 && all[k].non_resident,
        decreases all.len() - i,
    {
        let a = attrs[i];
        let ghost old_out = out@;
        let ghost prefix = all.subrange(0, i as int);
        let ghost next = all.subrange(0, i + 1);
        proof {
            assert(next.drop_last() =~= prefix);
            assert(next.last() == a);
        }
        if a.attr_type == ATTR_ATTRIBUTE_LIST {
            if a.non_resident {
                complex = true;
            } else {
                match resident_value(base, &a) {
                    Some((start, len)) => {
                        out = add_list_refs(base, start, start + len, entry_num, total_records, out);
                    },
                    None => {},
                }
            }
        }
        proof {
            let here = if a.attr_type == 0x20 && !a.non_resident {
                match resident_value_spec(base@, a) {
                    Some(v) => list_refs(base@, v.0 as int, (v.0 + v.1) as int),
                    None => Seq::empty(),
                }
            } else {
                Seq::empty()
            };
            assert(refs_in_attrs(base@, next) == refs_in_attrs(base@, prefix) + here);
            lemma_concat_contains(refs_in_attrs(base@, prefix), here);
            assert forall|y: u64| out@.contains(y) <==> (old_out.contains(y) || (here.contains(y) && fetchable(y, entry_num, total_records))) by {
                if a.attr_type == 0x20 && !a.non_resident {
                    match resident_value_spec(base@, a) {
                        Some(v) => {},
                        None => {
                            assert(out@ == old_out);
                        },
                    }
                } else {
                    assert(out@ == old_out);
                }
            }
            assert forall|y: u64| #[trigger] out@.contains(y) <==> (refs_in_attrs(base@, next).contains(y) && fetchable(y, entry_num, total_records)) by {
                assert(old_out.contains(y) <==> (refs_in_attrs(base@, prefix).contains(y) && fetchable(y, entry_num, total_records)));
                assert((refs_in_attrs(base@, prefix) + here).contains(y) <==> (refs_in_attrs(base@, prefix).contains(y) || here.contains(y)));
                assert(out@.contains(y) <==> (old_out.contains(y) || (here.contains(y) && fetchable(y, entry_num, total_records))));
            }
        }
        i = i + 1;
        assert(next == all.subrange(0, i as int));
    }
    proof {
        assert(all.subrange(0, all.len() as int) =~= all);
    }
    (out, complex)
}

/// Number of whole records in a file of `file_size` bytes.
pub fn total_records(file_size: u64, record_size: usize) -> (r: u64)
    ensures
        record_size == 0 ==> r == 0,
        record_size > 0 ==> r == file_size / (record_size as u64),
{
    if record_size == 0 {
        return 0;
    }
    file_size / record_size as u64
}

/// The entries named by the resident `$ATTRIBUTE_LIST`s of a base record.
pub open spec fn base_extent_refs(base: Seq<u8>, record_size: nat) -> Seq<u64> {
    match decode_header(base) {
        Some(h) => refs_in_attrs(base, record_attrs(base, h, record_size)),
        None => Seq::empty(),
    }
}

/// The base record has a non-resident `$ATTRIBUTE_LIST`.
pub open spec fn base_has_complex_list(base: Seq<u8>, record_size: nat) -> bool {
    match decode_header(base) {
        Some(h) => {
            let attrs = record_attrs(base, h, record_size);
            exists|k: int| 0 <= k < attrs.len() && attrs[k].attr_type == 0x20 && attrs[k].non_resident
        },
        None => false,
    }
}

/// `b` is an extent record fetched for `entry`, named by the base record's attribute list,
/// with its fixups applied.
pub open spec fn fetched_extent<F: Fn(u64) -> Option<Vec<u8>>>(
    fetch: &F,
    base: Seq<u8>,
    record_size: nat,
    entry: u64,
    total_records: u64,
    bytes_per_sector: u16,
    b: Seq<u8>,
) -> bool {
    exists|e: u64| #[trigger] fetched_from(fetch, base, record_size, entry, total_records, bytes_per_sector, e, b)
}

/// `b` is extent `e`, named by the base record's attribute list, as fetched, with its fixups
/// applied.
pub open spec fn fetched_from<F: Fn(u64) -> Option<Vec<u8>>>(
    fetch: &F,
    base: Seq<u8>,
    record_size: nat,
    entry: u64,
    total_records: u64,
    bytes_per_sector: u16,
    e: u64,
    b: Seq<u8>,
) -> bool {
    exists|raw: Vec<u8>|
        {
            &&& fetch.ensures((e,), Some(raw))
            &&& base_extent_refs(base, record_size).contains(e)
            &&& fetchable(e, entry, total_records)
            &&& decode_header(raw@) matches Some(h) && {
                let f = fixup_spec(
                    raw@,
                    h.update_sequence_offset as nat,
                    h.update_sequence_size as nat,
                    bytes_per_sector as nat,
                );
                f.1 != FixupResult::Failed && f.0 == b
            }
        }
}

/// Fetching extent `e` gave nothing usable: no bytes, an undecodable header, or failed
/// fixups.
pub open spec fn fetch_fails<F: Fn(u64) -> Option<Vec<u8>>>(fetch: &F, e: u64, bytes_per_sector: u16) -> bool {
    fetch.ensures((e,), None) || exists|raw: Vec<u8>|
        #[trigger] fetch.ensures((e,), Some(raw)) && match decode_header(raw@) {
            None => true,
            Some(h) => fixup_spec(
                raw@,
                h.update_sequence_offset as nat,
                h.update_sequence_size as nat,
                bytes_per_sector as nat,
            ).1 == FixupResult::Failed,
        }
}

/// The base record followed by each fetched extent record whose header decodes and whose
/// fixups do not fail. `fetch(entry)` returns the raw bytes of record `entry`. The flag
/// tells that a non-resident `$ATTRIBUTE_LIST` was seen.
pub fn gather_record_buffers<F: Fn(u64) -> Option<Vec<u8>>>(
    fetch: &F,
    entry_num: u64,
    base_buffer: Vec<u8>,
    record_size: usize,
    total_records: u64,
    bytes_per_sector: u16,
) -> (r: (Vec<Vec<u8>>, bool))
    requires
        forall|e: u64| fetch.requires((e,)),
    ensures
        r.0@.len() >= 1,
        r.0@[0]@ == base_buffer@,
        r.1 == base_has_complex_list(base_buffer@, record_size as nat),
        forall|k: int|
            1 <= k < r.0@.len() ==> fetched_extent(
                fetch,
                base_buffer@,
                record_size as nat,
                entry_num,
                total_records,
                bytes_per_sector,
                #[trigger] r.0@[k]@,
            ),
        exists|es: Seq<u64>|
            {
                &&& es.len() + 1 == r.0@.len()
                &&& es.no_duplicates()
                &&& forall|k: int|
                    0 <= k < es.len() ==> #[trigger] fetched_from(
                        fetch,
                        base_buffer@,
                        record_size as nat,
                        entry_num,
                        total_records,
                        bytes_per_sector,
                        es[k],
                        r.0@[k + 1]@,
                    )
                &&& forall|x: u64|
                    base_extent_refs(base_buffer@, record_size as nat).contains(x) && fetchable(x, entry_num, total_records)
                        ==> #[trigger] es.contains(x) || fetch_fails(fetch, x, bytes_per_sector)
            },
{
    let (refs, complex) = extent_references(base_buffer.as_slice(), entry_num, record_size, total_records);
    let mut buffers: Vec<Vec<u8>> = Vec::new();
    let ghost b0 = base_buffer@;
    buffers.push(base_buffer);
    let mut i: usize = 0;
    let ghost mut es: Seq<u64> = Seq::empty();
    while i < refs.len()
        invariant
            forall|e: u64| fetch.requires((e,)),
            refs@.no_duplicates(),
            es.len() + 1 == buffers@.len(),
            es.no_duplicates(),
            forall|k: int|
                0 <= k < es.len() ==> #[trigger] fetched_from(
                    fetch,
                    b0,
                    record_size as nat,
                    entry_num,
                    total_records,
                    bytes_per_sector,
                    es[k],
                    buffers@[k + 1]@,
                ),
            forall|k: int| 0 <= k < es.len() ==> exists|u: int| 0 <= u < i && refs@[u] == #[trigger] es[k],
            forall|u: int| 0 <= u < i ==> es.contains(#[trigger] refs@[u]) || fetch_fails(fetch, refs@[u], bytes_per_sector),
            buffers@.len() >= 1,
            buffers@[0]@ == b0,
            i <= refs@.len(),
            forall|x: u64| refs@.contains(x) ==> fetchable(x, entry_num, total_records) && base_extent_refs(b0, record_size as nat).contains(x),
            forall|k: int|
                1 <= k < buffers@.len() ==> fetched_extent(fetch, b0, record_size as nat, entry_num, total_records, bytes_per_sector, #[trigger] buffers@[k]@),
        decreases refs@.len() - i,
    {
        let e = refs[i];
        proof {
            assert(refs@.contains(e)) by {
                assert(refs@[i as int] == e);
            }
        }
        let fetched = fetch(e);
        let ghost es_before = es;
        assert(fetch.ensures((e,), fetched));
        proof {
            assert forall|k: int| 0 <= k < es.len() implies es[k] != e by {
                let u = choose|u: int| 0 <= u < i && refs@[u] == #[trigger] es[k];
                assert(refs@[u] != refs@[i as int]);
            }
        }
        if let Some(raw) = fetched {
            let ghost raw_v = raw;
            let mut buf = raw;
            if let Some(h) = MftRecordHeader::parse(buf.as_slice()) {
                if apply_fixups(&mut buf, &h, bytes_per_sector) != FixupResult::Failed {
                    let ghost before = buffers@;
                    buffers.push(buf);
                    proof {
                        es = es.push(e);
                        assert(fetch.ensures((e,), Some(raw_v)));
                        assert(fetched_from(fetch, b0, record_size as nat, entry_num, total_records, bytes_per_sector, e, buf@));
                        assert forall|k: int| 0 <= k < es.len() implies #[trigger] fetched_from(
                            fetch,
                            b0,
                            record_size as nat,
                            entry_num,
                            total_records,
                            bytes_per_sector,
                            es[k],
                            buffers@[k + 1]@,
                        ) by {
                            if k < es_before.len() {
                                assert(buffers@[k + 1] == before[k + 1]);
                                assert(es[k] == es_before[k]);
                            }
                        }
                        assert forall|p: int, q: int| 0 <= p < q < es.len() implies es[p] != es[q] by {
                            if q < es_before.len() {
                                assert(es_before[p] != es_before[q]);
                            }
                        }
                        assert(fetched_extent(fetch, b0, record_size as nat, entry_num, total_records, bytes_per_sector, buf@));
                        assert forall|k: int| 1 <= k < buffers@.len() implies fetched_extent(fetch, b0, record_size as nat, entry_num, total_records, bytes_per_sector, #[trigger] buffers@[k]@) by {
                            if k < before.len() {
                                assert(buffers@[k] == before[k]);
                            }
                        }
                    }
                }
            }
        }
        proof {
            assert forall|k: int| 0 <= k < es.len() implies exists|u: int| 0 <= u < i + 1 && refs@[u] == #[trigger] es[k] by {
                if k < es_before.len() {
                    assert(es[k] == es_before[k]);
                    let u = choose|u: int| 0 <= u < i && refs@[u] == #[trigger] es_before[k];
                    assert(0 <= u < i + 1 && refs@[u] == es[k]);
                } else {
                    assert(refs@[i as int] == es[k]);
                }
            }
            assert forall|u: int| 0 <= u < i + 1 implies es.contains(#[trigger] refs@[u]) || fetch_fails(fetch, refs@[u], bytes_per_sector) by {
                if u < i {
                    if es_before.contains(refs@[u]) {
                        let k = choose|k: int| 0 <= k < es_before.len() && es_before[k] == refs@[u];
                        assert(es[k] == refs@[u]);
                    }
                } else if es.len() > es_before.len() {
                    assert(es[es_before.len() as int] == e);
                } else {
                    assert(refs@[u] == e);
                }
            }
        }
        i = i + 1;
    }
    proof {
        assert forall|x: u64|
            base_extent_refs(b0, record_size as nat).contains(x) && fetchable(x, entry_num, total_records)
                implies #[trigger] es.contains(x) || fetch_fails(fetch, x, bytes_per_sector) by {
            assert(refs@.contains(x));
            let u = choose|u: int| 0 <= u < refs@.len() && refs@[u] == x;
            assert(es.contains(refs@[u]) || fetch_fails(fetch, refs@[u], bytes_per_sector));
        }
    }
    (buffers, complex)
}

} // verus!
