//! The NTFS volume boot record (VBR).
use vstd::prelude::*;
use vstd::arithmetic::power2::pow2;
use crate::bytes::{le16, le64, read_u16_le, read_u64_le};

verus! {

/// The OEM identifier `"NTFS    "` found at bytes 3..11 of an NTFS boot sector.
pub open spec fn ntfs_oem() -> Seq<u8> {
    seq![0x4Eu8, 0x54u8, 0x46u8, 0x53u8, 0x20u8, 0x20u8, 0x20u8, 0x20u8]
}

pub open spec fn has_ntfs_oem(s: Seq<u8>) -> bool {
    s.len() >= 11 && s.subrange(3, 11) == ntfs_oem()
}

/// A byte read as a two's-complement signed value.
pub open spec fn i8_of(b: u8) -> i8 {
    if b < 128 {
        b as i8
    } else {
        (b - 256) as i8
    }
}

/// `n` is a power of two.
pub open spec fn is_pow2(n: nat) -> bool
    decreases n,
{
    if n <= 1 {
        n == 1
    } else {
        n % 2 == 0 && is_pow2(n / 2)
    }
}

#[derive(Debug, Clone, Copy, PartialEq, Eq, Structural)]
pub struct NtfsBootSector {
    pub bytes_per_sector: u16,
    pub sectors_per_cluster: u8,
    pub mft_lcn: u64,
    pub mft_mirror_lcn: u64,
    pub clusters_per_file_record_segment: i8,
    pub clusters_per_index_buffer: i8,
    pub volume_serial_number: u64,
}

/// Why a decoded boot sector was refused.
#[derive(Debug, Clone, Copy, PartialEq, Eq, Structural)]
pub enum VbrError {
    BadBytesPerSector,
    BadSectorsPerCluster,
    ZeroMftLcn,
    UnknownRecordSize,
    BadRecordSize,
}

/// The boot sector decoded from the first 512 bytes of `s`, if it carries the NTFS OEM id.
pub open spec fn decode_boot(s: Seq<u8>) -> Option<NtfsBootSector> {
    if s.len() < 512 || !has_ntfs_oem(s) {
        None
    } else {
        Some(
            NtfsBootSector {
                bytes_per_sector: le16(s, 11),
                sectors_per_cluster: s[13],
                mft_lcn: le64(s, 48),
                mft_mirror_lcn: le64(s, 56),
                clusters_per_file_record_segment: i8_of(s[64]),
                clusters_per_index_buffer: i8_of(s[68]),
                volume_serial_number: le64(s, 72),
            },
        )
    }
}

pub open spec fn valid_sector_size(n: int) -> bool {
    n == 512 || n == 1024 || n == 2048 || n == 4096
}

fn byte_as_i8(b: u8) -> (r: i8)
    ensures
        r == i8_of(b),
{
    if b < 128 {
        b as i8
    } else {
        (b as i16 - 256) as i8
    }
}

/// Whether `n` is a power of two.
pub fn is_power_of_two(n: u64) -> (r: bool)
    ensures
        r == is_pow2(n as nat),
{
    if n == 0 {
        return false;
    }
    let mut m: u64 = n;
    while m > 1
        invariant
            m >= 1,
            is_pow2(n as nat) == is_pow2(m as nat),
        decreases m,
    {
        if m % 2 != 0 {
            return false;
        }
        m = m / 2;
    }
    true
}

impl NtfsBootSector {
    pub open spec fn spec_bytes_per_cluster(&self) -> nat {
        self.bytes_per_sector as nat * self.sectors_per_cluster as nat
    }

    /// The record size that the boot sector declares: positive values count clusters
    /// (saturating at `u32::MAX`), negative values `-n` mean `2^n` bytes.
    pub open spec fn spec_file_record_size(&self) -> Option<u32> {
        let v = self.clusters_per_file_record_segment as int;
        if v == 0 {
            None
        } else if v > 0 {
            let p = self.spec_bytes_per_cluster() * v;
            Some(if p > u32::MAX { u32::MAX } else { p as u32 })
        } else if -v > 31 {
            None
        } else {
            Some(pow2((-v) as nat) as u32)
        }
    }

    /// The record size when the boot sector passes every structural check.
    pub open spec fn spec_validate(&self) -> Result<usize, VbrError> {
        if !valid_sector_size(self.bytes_per_sector as int) {
            Err(VbrError::BadBytesPerSector)
        } else if !is_pow2(self.sectors_per_cluster as nat) {
            Err(VbrError::BadSectorsPerCluster)
        } else if self.mft_lcn == 0 {
            Err(VbrError::ZeroMftLcn)
        } else {
            match self.spec_file_record_size() {
                None => Err(VbrError::UnknownRecordSize),
                Some(rs) => if rs < 1024 || !is_pow2(rs as nat) {
                    Err(VbrError::BadRecordSize)
                } else {
                    Ok(rs as usize)
                },
            }
        }
    }

    /// Decodes the fields of an NTFS boot sector; `None` when the buffer is shorter
    /// than 512 bytes or lacks the NTFS OEM id.
    pub fn parse(vbr: &[u8]) -> (r: Option<Self>)
        ensures
            r == decode_boot(vbr@),
    {
        if vbr.len() < 512 {
            return None;
        }
        let mut i: usize = 0;
        let oem: [u8; 8] = [0x4E, 0x54, 0x46, 0x53, 0x20, 0x20, 0x20, 0x20];
        assert(oem@ == ntfs_oem());
        while i < 8
            invariant
                i <= 8,
                vbr@.len() >= 512,
                oem@ == ntfs_oem(),
                forall|j: int| 0 <= j < i ==> vbr@[3 + j] == ntfs_oem()[j],
            decreases 8 - i,
        {
            if vbr[3 + i] != oem[i] {
                assert(vbr@.subrange(3, 11)[i as int] != ntfs_oem()[i as int]);
                return None;
            }
            i = i + 1;
        }
        assert(vbr@.subrange(3, 11) =~= ntfs_oem());
        Some(
            NtfsBootSector {
                bytes_per_sector: read_u16_le(vbr, 11),
                sectors_per_cluster: vbr[13],
                mft_lcn: read_u64_le(vbr, 48),
                mft_mirror_lcn: read_u64_le(vbr, 56),
                clusters_per_file_record_segment: byte_as_i8(vbr[64]),
                clusters_per_index_buffer: byte_as_i8(vbr[68]),
                volume_serial_number: read_u64_le(vbr, 72),
            },
        )
    }

    pub fn bytes_per_cluster(&self) -> (r: u64)
        ensures
            r as nat == self.spec_bytes_per_cluster(),
            r <= 0xFFFF * 0xFF,
    {
        assert(self.bytes_per_sector as nat * self.sectors_per_cluster as nat <= 0xFFFF * 0xFF)
            by (nonlinear_arith);
        self.bytes_per_sector as u64 * self.sectors_per_cluster as u64
    }

    pub fn file_record_size_bytes(&self) -> (r: Option<u32>)
        ensures
            r == self.spec_file_record_size(),
    {
        let bpc = self.bytes_per_cluster();
        let v = self.clusters_per_file_record_segment;
        if v == 0 {
            return None;
        }
        if v > 0 {
            assert(bpc * (v as u64) <= 0xFFFF * 0xFF * 0x7F) by (nonlinear_arith)
                requires
                    bpc <= 0xFFFF * 0xFF,
                    v <= 0x7F,
                    v > 0,
            ;
            let p: u64 = bpc * (v as u64);
            if p > 0xFFFF_FFFF {
                Some(0xFFFF_FFFF)
            } else {
                Some(p as u32)
            }
        } else {
            let pow: u32 = (-(v as i16)) as u32;
            if pow > 31 {
                None
            } else {
                let mut r: u32 = 1;
                let mut k: u32 = 0;
                proof {
                    vstd::arithmetic::power2::lemma2_to64();
                }
                while k < pow
                    invariant
                        k <= pow <= 31,
                        r as nat == pow2(k as nat),
                        pow2(31) == 0x8000_0000,
                    decreases pow - k,
                {
                    proof {
                        vstd::arithmetic::power2::lemma_pow2_unfold((k + 1) as nat);
                        vstd::arithmetic::power2::lemma_pow2_strictly_increases(k as nat, 31);
                    }
                    r = r * 2;
                    k = k + 1;
                }
                Some(r)
            }
        }
    }
}

/// Checks the structural invariants of a decoded boot sector and returns the
/// MFT record size that it declares.
pub fn validate_vbr(boot: &NtfsBootSector) -> (r: Result<usize, VbrError>)
    ensures
        r == boot.spec_validate(),
{
    let bps = boot.bytes_per_sector;
    if bps != 512 && bps != 1024 && bps != 2048 && bps != 4096 {
        return Err(VbrError::BadBytesPerSector);
    }
    if !is_power_of_two(boot.sectors_per_cluster as u64) {
        return Err(VbrError::BadSectorsPerCluster);
    }
    if boot.mft_lcn == 0 {
        return Err(VbrError::ZeroMftLcn);
    }
    match boot.file_record_size_bytes() {
        None => Err(VbrError::UnknownRecordSize),
        Some(rs) => {
            if rs < 1024 || !is_power_of_two(rs as u64) {
                Err(VbrError::BadRecordSize)
            } else {
                Ok(rs as usize)
            }
        },
    }
}

} // verus!

verus! {

fn i8_as_byte(x: i8) -> (r: u8)
    ensures
        i8_of(r) == x,
{
    if x >= 0 {
        x as u8
    } else {
        (x as i16 + 256) as u8
    }
}

impl NtfsBootSector {
    /// Encodes the boot sector as a 512-byte NTFS VBR (jump instruction, OEM id, the fields
    /// at their offsets, and the `0x55 0xAA` signature). Decoding the result gives back
    /// exactly this boot sector.
    pub fn encode(&self) -> (r: Vec<u8>)
        ensures
            r@.len() == 512,
            decode_boot(r@) == Some(*self),
            r@[510] == 0x55 && r@[511] == 0xAA,
    {
        let mut v: Vec<u8> = vec![0u8; 512];
        v.set(0, 0xEB);
        v.set(1, 0x52);
        v.set(2, 0x90);
        let oem: [u8; 8] = [0x4E, 0x54, 0x46, 0x53, 0x20, 0x20, 0x20, 0x20];
        let mut i: usize = 0;
        while i < 8
            invariant
                i <= 8,
                v@.len() == 512,
                oem@ == ntfs_oem(),
                forall|j: int| 0 <= j < i ==> v@[3 + j] == ntfs_oem()[j],
            decreases 8 - i,
        {
            v.set(3 + i, oem[i]);
            i = i + 1;
        }
        let ghost v_oem = v@;
        crate::bytes::write_le(&mut v, 11, self.bytes_per_sector as u64, 2);
        v.set(13, self.sectors_per_cluster);
        crate::bytes::write_le(&mut v, 48, self.mft_lcn, 8);
        crate::bytes::write_le(&mut v, 56, self.mft_mirror_lcn, 8);
        v.set(64, i8_as_byte(self.clusters_per_file_record_segment));
        v.set(68, i8_as_byte(self.clusters_per_index_buffer));
        crate::bytes::write_le(&mut v, 72, self.volume_serial_number, 8);
        v.set(510, 0x55);
        v.set(511, 0xAA);
        proof {
            let s = v@;
            assert forall|j: int| 0 <= j < 8 implies #[trigger] s.subrange(3, 11)[j] == ntfs_oem()[j] by {
                assert(s[3 + j] == v_oem[3 + j]);
            }
            assert(s.subrange(3, 11) =~= ntfs_oem());
            crate::bytes::lemma_pow256_values();
            crate::bytes::lemma_le_value_of_bytes(s, 11, 2, self.bytes_per_sector as nat);
            crate::bytes::lemma_le_value_of_bytes(s, 48, 8, self.mft_lcn as nat);
            crate::bytes::lemma_le_value_of_bytes(s, 56, 8, self.mft_mirror_lcn as nat);
            crate::bytes::lemma_le_value_of_bytes(s, 72, 8, self.volume_serial_number as nat);
        }
        v
    }
}

} // verus!
