//! The DMA transfer descriptor: a fixed-layout, hardware-visible record
//! describing one fragment of a transfer.
//!
//! A descriptor occupies 12 bytes in DMA-reachable RAM: the 32-bit flags
//! word, the address of the fragment's data buffer, and the address of the
//! next descriptor (0 for a terminal link). Addresses are modelled as plain
//! `usize` values.

use vstd::prelude::*;
use crate::flags::DmaDescriptorFlags;

verus! {

/// Who may write a descriptor's data area.
#[derive(Debug, Clone, Copy, PartialEq, Eq, Structural)]
pub enum Owner {
    /// The CPU owns the descriptor.
    Cpu,
    /// The DMA engine owns the descriptor.
    Dma,
}

/// A DMA transfer descriptor.
#[derive(Debug, Clone, Copy, PartialEq, Eq, Structural)]
pub struct DmaDescriptor {
    /// The bit-packed control word.
    pub flags: DmaDescriptorFlags,
    /// Address of this fragment's data buffer.
    pub buffer: usize,
    /// Address of the next descriptor, or 0 for a terminal link.
    pub next: usize,
}

impl DmaDescriptor {
    /// The all-zero descriptor used to initialize a descriptor table.
    pub open spec fn spec_empty() -> DmaDescriptor {
        DmaDescriptor { flags: DmaDescriptorFlags(0), buffer: 0, next: 0 }
    }

    /// The `size` field as a byte count.
    pub open spec fn spec_size(self) -> int {
        self.flags.spec_size() as int
    }

    /// The `length` field as a byte count.
    pub open spec fn spec_len(self) -> int {
        self.flags.spec_length() as int
    }

    /// The `suc_eof` bit.
    pub open spec fn spec_suc_eof(self) -> bool {
        self.flags.spec_suc_eof()
    }

    /// The `owner` bit as an [`Owner`].
    pub open spec fn spec_owner(self) -> Owner {
        if self.flags.spec_owner() {
            Owner::Dma
        } else {
            Owner::Cpu
        }
    }

    /// An empty descriptor used to initialize the descriptor list.
    pub fn empty() -> (r: Self)
        ensures
            r == Self::spec_empty(),
    {
        DmaDescriptor { flags: DmaDescriptorFlags(0), buffer: 0, next: 0 }
    }

    /// Store `len` (at most 4095) in the `size` field.
    pub fn set_size(&mut self, len: usize)
        requires
            len < 0x1000,
        ensures
            final(self).spec_size() == len,
            final(self).spec_len() == old(self).spec_len(),
            final(self).spec_suc_eof() == old(self).spec_suc_eof(),
            final(self).spec_owner() == old(self).spec_owner(),
            final(self).buffer == old(self).buffer,
            final(self).next == old(self).next,
    {
        let v: u16 = len as u16;
        proof {
            crate::flags::lemma_mask_12_identity(v);
        }
        self.flags.set_size(v)
    }

    /// Store `len` (at most 4095) in the `length` field.
    pub fn set_length(&mut self, len: usize)
        requires
            len < 0x1000,
        ensures
            final(self).spec_len() == len,
            final(self).spec_size() == old(self).spec_size(),
            final(self).spec_suc_eof() == old(self).spec_suc_eof(),
            final(self).spec_owner() == old(self).spec_owner(),
            final(self).buffer == old(self).buffer,
            final(self).next == old(self).next,
    {
        let v: u16 = len as u16;
        proof {
            crate::flags::lemma_mask_12_identity(v);
        }
        self.flags.set_length(v)
    }

    /// The `length` field: the bytes transferred or to transfer.
    pub fn len(&self) -> (r: usize)
        ensures
            r == self.spec_len(),
    {
        self.flags.length() as usize
    }

    /// The `size` field: the byte capacity of the fragment's buffer.
    pub fn size(&self) -> (r: usize)
        ensures
            r == self.spec_size(),
    {
        self.flags.size() as usize
    }

    /// Set or clear the end-of-frame interrupt marker.
    pub fn set_suc_eof(&mut self, suc_eof: bool)
        ensures
            final(self).spec_suc_eof() == suc_eof,
            final(self).spec_size() == old(self).spec_size(),
            final(self).spec_len() == old(self).spec_len(),
            final(self).spec_owner() == old(self).spec_owner(),
            final(self).buffer == old(self).buffer,
            final(self).next == old(self).next,
    {
        self.flags.set_suc_eof(suc_eof)
    }

    /// The end-of-frame interrupt marker.
    pub fn suc_eof(&self) -> (r: bool)
        ensures
            r == self.spec_suc_eof(),
    {
        self.flags.suc_eof()
    }

    /// Hand the descriptor to the CPU or to the DMA engine.
    pub fn set_owner(&mut self, owner: Owner)
        ensures
            final(self).spec_owner() == owner,
            final(self).spec_size() == old(self).spec_size(),
            final(self).spec_len() == old(self).spec_len(),
            final(self).spec_suc_eof() == old(self).spec_suc_eof(),
            final(self).buffer == old(self).buffer,
            final(self).next == old(self).next,
    {
        let bit = match owner {
            Owner::Cpu => false,
            Owner::Dma => true,
        };
        self.flags.set_owner(bit)
    }

    /// Who currently owns the descriptor.
    pub fn owner(&self) -> (r: Owner)
        ensures
            r == self.spec_owner(),
    {
        if self.flags.owner() {
            Owner::Dma
        } else {
            Owner::Cpu
        }
    }
}

} // verus!
