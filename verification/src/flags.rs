//! A 32-bit bitset carried by the archive header and by every entry.
//! The upper half is reserved for the format itself; the lower half is
//! free for callers. The public setter refuses reserved bits; the
//! writer commits reserved bits through `force_set` as it encodes.

use vstd::prelude::*;
use crate::errors::InternalError;
use crate::errors::InternalResult;

verus! {

/// Archive- and entry-level flags: a `u32` bitset with a reserved upper half.
#[derive(Clone, Copy, Debug, PartialEq, Eq, Structural)]
pub struct Flags {
    pub bits: u32,
}

impl View for Flags {
    type V = u32;

    open spec fn view(&self) -> u32 {
        self.bits
    }
}

impl Flags {
    /// Size in bytes of the flags field on disk.
    pub const SIZE: usize = 4;

    /// Bits owned by the format; `set` refuses any mask that touches them.
    pub const RESERVED_MASK: u32 = 0xFFFF0000;

    /// The entry's data bytes are compressed.
    pub const COMPRESSED_FLAG: u32 = 0x80000000;

    /// The compression algorithm is the LZ4 frame format.
    pub const LZ4_COMPRESSED: u32 = 0x40000000;

    /// The compression algorithm is Brotli.
    pub const BROTLI_COMPRESSED: u32 = 0x20000000;

    /// The compression algorithm is the Snappy frame format.
    pub const SNAPPY_COMPRESSED: u32 = 0x10000000;

    /// The entry carries a detached signature.
    pub const SIGNED_FLAG: u32 = 0x08000000;

    /// The entry's data bytes are ciphertext.
    pub const ENCRYPTED_FLAG: u32 = 0x04000000;

    /// A bitset with no bits set.
    pub fn empty() -> (r: Flags)
        ensures
            r@ == 0u32,
    {
        Flags { bits: 0 }
    }

    /// Wraps raw bits, reserved region included, exactly as given.
    pub fn from_bits(bits: u32) -> (r: Flags)
        ensures
            r@ == bits,
    {
        Flags { bits }
    }

    /// Returns the raw bits.
    pub fn bits(&self) -> (r: u32)
        ensures
            r == self@,
    {
        self.bits
    }

    /// True when every bit of `mask` is set in `self`.
    pub fn contains(&self, mask: u32) -> (r: bool)
        ensures
            r == (self@ & mask == mask),
    {
        self.bits & mask == mask
    }

    /// Sets or clears the bits of `mask`; fails without touching `self`
    /// when the mask intersects the reserved region.
    pub fn set(&mut self, mask: u32, value: bool) -> (r: InternalResult<u32>)
        ensures
            mask & Flags::RESERVED_MASK != 0 ==> (r matches Err(e)
                && e is RestrictedFlagAccessError
                && final(self)@ == old(self)@),
            mask & Flags::RESERVED_MASK == 0 ==> (r matches Ok(b)
                && final(self)@ == (if value { old(self)@ | mask } else { old(self)@ & !mask })
                && b == final(self)@),
    {
        if mask & Flags::RESERVED_MASK != 0 {
            Err(InternalError::RestrictedFlagAccessError)
        } else {
            Ok(self.force_set(mask, value))
        }
    }

    /// Sets or clears the bits of `mask`, reserved region included.
    /// Never fails; used by the writer as it commits format bits.
    pub fn force_set(&mut self, mask: u32, value: bool) -> (r: u32)
        ensures
            final(self)@ == (if value { old(self)@ | mask } else { old(self)@ & !mask }),
            r == final(self)@,
    {
        if value {
            self.bits = self.bits | mask;
        } else {
            self.bits = self.bits & !mask;
        }
        self.bits
    }
}

impl Default for Flags {
    /// The default bitset is empty.
    fn default() -> (r: Flags)
        ensures
            r@ == 0u32,
    {
        Flags { bits: 0 }
    }
}

} // verus!
