//! Little-endian integer reads over byte buffers.
use vstd::prelude::*;

verus! {

/// `256^n`.
pub open spec fn pow256(n: nat) -> nat
    decreases n,
{
    if n == 0 {
        1
    } else {
        256 * pow256((n - 1) as nat)
    }
}

/// The unsigned little-endian value of the `n` bytes of `s` starting at `off`.
pub open spec fn le_value(s: Seq<u8>, off: int, n: nat) -> nat
    decreases n,
{
    if n == 0 {
        0
    } else {
        s[off] as nat + 256 * le_value(s, off + 1, (n - 1) as nat)
    }
}

pub open spec fn le16(s: Seq<u8>, off: int) -> u16 {
    le_value(s, off, 2) as u16
}

pub open spec fn le32(s: Seq<u8>, off: int) -> u32 {
    le_value(s, off, 4) as u32
}

pub open spec fn le64(s: Seq<u8>, off: int) -> u64 {
    le_value(s, off, 8) as u64
}

pub proof fn lemma_pow256_pos(n: nat)
    ensures
        pow256(n) >= 1,
    decreases n,
{
    if n > 0 {
        lemma_pow256_pos((n - 1) as nat);
    }
}

pub proof fn lemma_le_value_bound(s: Seq<u8>, off: int, n: nat)
    ensures
        le_value(s, off, n) < pow256(n),
    decreases n,
{
    if n > 0 {
        lemma_le_value_bound(s, off + 1, (n - 1) as nat);
        assert(s[off] as nat <= 255);
    }
}

pub proof fn lemma_pow256_values()
    ensures
        pow256(1) == 0x100,
        pow256(2) == 0x1_0000,
        pow256(4) == 0x1_0000_0000,
        pow256(8) == 0x1_0000_0000_0000_0000,
{
    reveal_with_fuel(pow256, 9);
}

/// Reads the unsigned little-endian value of `n` bytes (at most 8) at `off`.
pub fn read_le(s: &[u8], off: usize, n: usize) -> (r: u64)
    requires
        n <= 8,
        off + n <= s@.len(),
    ensures
        r as nat == le_value(s@, off as int, n as nat),
        (r as nat) < pow256(n as nat),
{
    let len = s.len();
    let mut v: u64 = 0;
    let mut i: usize = n;
    proof {
        lemma_pow256_values();
    }
    while i > 0
        invariant
            i <= n <= 8,
            off + n <= s@.len() == len,
            v as nat == le_value(s@, off + i, (n - i) as nat),
            (v as nat) < pow256((n - i) as nat),
            pow256(8) == 0x1_0000_0000_0000_0000,
        decreases i,
    {
        proof {
            lemma_pow256_monotone((n - i + 1) as nat, 8);
        }
        let b = s[off + (i - 1)];
        assert(v * 256 + b < pow256((n - i + 1) as nat)) by (nonlinear_arith)
            requires
                (v as nat) < pow256((n - i) as nat),
                pow256((n - i + 1) as nat) == 256 * pow256((n - i) as nat),
                b <= 255,
        ;
        v = v * 256 + b as u64;
        i = i - 1;
    }
    proof {
        lemma_le_value_bound(s@, off as int, n as nat);
    }
    v
}

pub proof fn lemma_pow256_monotone(a: nat, b: nat)
    requires
        a <= b,
    ensures
        pow256(a) <= pow256(b),
    decreases b,
{
    if a < b {
        lemma_pow256_monotone(a, (b - 1) as nat);
        lemma_pow256_pos((b - 1) as nat);
    }
}

pub fn read_u16_le(s: &[u8], off: usize) -> (r: u16)
    requires
        off + 2 <= s@.len(),
    ensures
        r == le16(s@, off as int),
{
    proof {
        lemma_pow256_values();
    }
    read_le(s, off, 2) as u16
}

pub fn read_u32_le(s: &[u8], off: usize) -> (r: u32)
    requires
        off + 4 <= s@.len(),
    ensures
        r == le32(s@, off as int),
{
    proof {
        lemma_pow256_values();
    }
    read_le(s, off, 4) as u32
}

pub fn read_u64_le(s: &[u8], off: usize) -> (r: u64)
    requires
        off + 8 <= s@.len(),
    ensures
        r == le64(s@, off as int),
{
    read_le(s, off, 8)
}

} // verus!

verus! {

/// Byte `k` of the little-endian encoding of `v`.
pub open spec fn le_byte(v: nat, k: nat) -> u8 {
    ((v / pow256(k)) % 256) as u8
}

/// Bytes laid out as the little-endian encoding of `v` read back as `v`.
pub proof fn lemma_le_value_of_bytes(s: Seq<u8>, off: int, n: nat, v: nat)
    requires
        v < pow256(n),
        0 <= off,
        off + n <= s.len(),
        forall|k: nat| k < n ==> s[off + k] == #[trigger] le_byte(v, k),
    ensures
        le_value(s, off, n) == v,
    decreases n,
{
    if n == 0 {
        assert(pow256(0) == 1);
    } else {
        let w = v / 256;
        assert forall|k: nat| k < (n - 1) as nat implies s[off + 1 + k] == #[trigger] le_byte(w, k) by {
            lemma_pow256_pos(k);
            vstd::arithmetic::div_mod::lemma_div_denominator(v as int, 256, pow256(k) as int);
            assert(pow256(k + 1) == 256 * pow256(k));
            assert(s[off + (k + 1) as nat] == le_byte(v, (k + 1) as nat));
        }
        assert(w < pow256((n - 1) as nat)) by {
            lemma_pow256_pos((n - 1) as nat);
            vstd::arithmetic::div_mod::lemma_div_is_ordered_by_denominator(v as int, 256, 256);
        }
        assert(v < 256 * pow256((n - 1) as nat));
        assert(w < pow256((n - 1) as nat)) by (nonlinear_arith)
            requires
                w == v / 256,
                v < 256 * pow256((n - 1) as nat),
        ;
        lemma_le_value_of_bytes(s, off + 1, (n - 1) as nat, w);
        assert(s[off + 0nat] == le_byte(v, 0));
        assert(pow256(0) == 1);
        assert(v / 1 == v);
        assert(le_byte(v, 0) as nat == v % 256);
        assert(le_value(s, off, n) == s[off] as nat + 256 * le_value(s, off + 1, (n - 1) as nat));
        assert(v == 256 * w + v % 256) by {
            vstd::arithmetic::div_mod::lemma_fundamental_div_mod(v as int, 256);
        }
    }
}

/// Writes the `n` little-endian bytes of `v` at `off`.
pub fn write_le(buf: &mut Vec<u8>, off: usize, v: u64, n: usize)
    requires
        n <= 8,
        off + n <= old(buf)@.len(),
    ensures
        final(buf)@.len() == old(buf)@.len(),
        forall|k: nat| k < n ==> final(buf)@[off + k] == #[trigger] le_byte(v as nat, k),
        forall|p: int| 0 <= p < old(buf)@.len() && !(off <= p < off + n) ==> final(buf)@[p] == old(buf)@[p],
{
    let mut w: u64 = v;
    let mut k: usize = 0;
    let len = buf.len();
    proof {
        assert(pow256(0) == 1);
        assert(v as nat / 1 == v as nat);
    }
    while k < n
        invariant
            k <= n <= 8,
            off + n <= buf@.len(),
            buf@.len() == len,
            buf@.len() == old(buf)@.len(),
            w as nat == v as nat / pow256(k as nat),
            forall|j: nat| j < k ==> buf@[off + j] == #[trigger] le_byte(v as nat, j),
            forall|p: int| 0 <= p < old(buf)@.len() && !(off <= p < off + n) ==> buf@[p] == old(buf)@[p],
        decreases n - k,
    {
        proof {
            lemma_pow256_pos(k as nat);
            vstd::arithmetic::div_mod::lemma_div_denominator(v as int, pow256(k as nat) as int, 256);
            assert(pow256((k + 1) as nat) == pow256(k as nat) * 256);
        }
        buf.set(off + k, (w % 256) as u8);
        w = w / 256;
        k = k + 1;
    }
}

} // verus!
