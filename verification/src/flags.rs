//! The bit-packed per-descriptor control word.
//!
//! Layout (32 bits, fixed by silicon):
//! - bits 0..=11: `size`, the byte capacity of this fragment's buffer
//! - bits 12..=23: `length`, the bytes actually transferred or to transfer
//! - bits 24..=29: reserved, zero
//! - bit 30: `suc_eof`, the end-of-frame interrupt marker
//! - bit 31: `owner` (0 = CPU, 1 = DMA)

use vstd::prelude::*;

verus! {

/// The 32-bit control word at offset 0 of every DMA descriptor.
#[derive(Debug, Clone, Copy, PartialEq, Eq, Structural)]
pub struct DmaDescriptorFlags(pub u32);

impl DmaDescriptorFlags {
    /// The `size` field: bits 0..=11.
    pub open spec fn spec_size(self) -> u16 {
        (self.0 & 0xfff) as u16
    }

    /// The `length` field: bits 12..=23.
    pub open spec fn spec_length(self) -> u16 {
        ((self.0 >> 12) & 0xfff) as u16
    }

    /// The `suc_eof` bit: bit 30.
    pub open spec fn spec_suc_eof(self) -> bool {
        (self.0 >> 30) & 1 == 1
    }

    /// The `owner` bit: bit 31 (false = CPU, true = DMA).
    pub open spec fn spec_owner(self) -> bool {
        (self.0 >> 31) & 1 == 1
    }

    pub fn size(&self) -> (r: u16)
        ensures
            r == self.spec_size(),
    {
        proof {
            let o = self.0;
            assert(o & 0xfff < 0x1000) by (bit_vector);
        }
        (self.0 & 0xfff) as u16
    }

    pub fn length(&self) -> (r: u16)
        ensures
            r == self.spec_length(),
    {
        proof {
            let o = self.0;
            assert((o >> 12) & 0xfff < 0x1000) by (bit_vector);
        }
        ((self.0 >> 12) & 0xfff) as u16
    }

    pub fn suc_eof(&self) -> (r: bool)
        ensures
            r == self.spec_suc_eof(),
    {
        (self.0 >> 30) & 1 == 1
    }

    pub fn owner(&self) -> (r: bool)
        ensures
            r == self.spec_owner(),
    {
        (self.0 >> 31) & 1 == 1
    }

    /// Store the low 12 bits of `val` in the `size` field; all other bits
    /// keep their value.
    pub fn set_size(&mut self, val: u16)
        ensures
            final(self).spec_size() == val & 0xfff,
            final(self).spec_length() == old(self).spec_length(),
            final(self).spec_suc_eof() == old(self).spec_suc_eof(),
            final(self).spec_owner() == old(self).spec_owner(),
    {
        let w: u32 = (self.0 & !0xfffu32) | ((val as u32) & 0xfff);
        proof {
            let o = self.0;
            assert({
                let nw = (o & !0xfffu32) | ((val as u32) & 0xfff);
                &&& (nw & 0xfff) as u16 == val & 0xfff
                &&& (nw >> 12) & 0xfff == (o >> 12) & 0xfff
                &&& (nw >> 30) & 1 == (o >> 30) & 1
                &&& (nw >> 31) & 1 == (o >> 31) & 1
            }) by (bit_vector);
        }
        self.0 = w;
    }

    /// Store the low 12 bits of `val` in the `length` field; all other bits
    /// keep their value.
    pub fn set_length(&mut self, val: u16)
        ensures
            final(self).spec_length() == val & 0xfff,
            final(self).spec_size() == old(self).spec_size(),
            final(self).spec_suc_eof() == old(self).spec_suc_eof(),
            final(self).spec_owner() == old(self).spec_owner(),
    {
        let w: u32 = (self.0 & !(0xfffu32 << 12)) | (((val as u32) & 0xfff) << 12);
        proof {
            let o = self.0;
            assert({
                let nw = (o & !(0xfffu32 << 12)) | (((val as u32) & 0xfff) << 12);
                &&& ((nw >> 12) & 0xfff) as u16 == val & 0xfff
                &&& nw & 0xfff == o & 0xfff
                &&& (nw >> 30) & 1 == (o >> 30) & 1
                &&& (nw >> 31) & 1 == (o >> 31) & 1
            }) by (bit_vector);
        }
        self.0 = w;
    }

    /// Set or clear the `suc_eof` bit; all other bits keep their value.
    pub fn set_suc_eof(&mut self, val: bool)
        ensures
            final(self).spec_suc_eof() == val,
            final(self).spec_size() == old(self).spec_size(),
            final(self).spec_length() == old(self).spec_length(),
            final(self).spec_owner() == old(self).spec_owner(),
    {
        let w: u32 = if val {
            self.0 | (1u32 << 30)
        } else {
            self.0 & !(1u32 << 30)
        };
        proof {
            let o = self.0;
            assert({
                let nw = if val { o | (1u32 << 30) } else { o & !(1u32 << 30) };
                &&& ((nw >> 30) & 1 == 1) == val
                &&& nw & 0xfff == o & 0xfff
                &&& (nw >> 12) & 0xfff == (o >> 12) & 0xfff
                &&& (nw >> 31) & 1 == (o >> 31) & 1
            }) by (bit_vector);
        }
        self.0 = w;
    }

    /// Set or clear the `owner` bit; all other bits keep their value.
    pub fn set_owner(&mut self, val: bool)
        ensures
            final(self).spec_owner() == val,
            final(self).spec_size() == old(self).spec_size(),
            final(self).spec_length() == old(self).spec_length(),
            final(self).spec_suc_eof() == old(self).spec_suc_eof(),
    {
        let w: u32 = if val {
            self.0 | (1u32 << 31)
        } else {
            self.0 & !(1u32 << 31)
        };
        proof {
            let o = self.0;
            assert({
                let nw = if val { o | (1u32 << 31) } else { o & !(1u32 << 31) };
                &&& ((nw >> 31) & 1 == 1) == val
                &&& nw & 0xfff == o & 0xfff
                &&& (nw >> 12) & 0xfff == (o >> 12) & 0xfff
                &&& (nw >> 30) & 1 == (o >> 30) & 1
            }) by (bit_vector);
        }
        self.0 = w;
    }
}

/// The two 12-bit fields always fit in 12 bits.
pub proof fn lemma_field_bounds(f: DmaDescriptorFlags)
    ensures
        f.spec_size() < 0x1000,
        f.spec_length() < 0x1000,
{
    let w = f.0;
    assert(w & 0xfff < 0x1000 && (w >> 12) & 0xfff < 0x1000) by (bit_vector);
}

/// Masking by the 12-bit field width is the identity on values that fit.
pub proof fn lemma_mask_12_identity(v: u16)
    requires
        v < 0x1000,
    ensures
        v & 0xfff == v,
{
    assert(v < 0x1000 ==> v & 0xfff == v) by (bit_vector);
}

} // verus!
