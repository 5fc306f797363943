//! Flag masks and the error taxonomy.

use vstd::prelude::*;

verus! {

/// A named single-bit flag within a byte-wide bitmask.
pub trait FlagMask {
    /// The bit pattern of this flag.
    spec fn spec_mask(&self) -> u8;

    /// Returns the bit pattern of this flag.
    fn mask(&self) -> (r: u8)
        ensures
            r == self.spec_mask(),
    ;
}

/// A byte-wide bitmask over the flags of `T`.
#[derive(Debug)]
pub struct BitMask<T>(u8, core::marker::PhantomData<T>);

impl<T: FlagMask> BitMask<T> {
    /// The raw byte of the mask.
    pub closed spec fn spec_bits(&self) -> u8 {
        self.0
    }

    /// An empty mask: no flag is set.
    pub fn new() -> (r: Self)
        ensures
            r.spec_bits() == 0,
    {
        BitMask(0, core::marker::PhantomData)
    }

    /// A mask with exactly the given raw bits.
    pub fn from_bits(bits: u8) -> (r: Self)
        ensures
            r.spec_bits() == bits,
    {
        BitMask(bits, core::marker::PhantomData)
    }

    /// Returns the raw byte of the mask.
    pub fn bits(&self) -> (r: u8)
        ensures
            r == self.spec_bits(),
    {
        self.0
    }

    /// Turns one flag on or off, leaving the other bits alone.
    pub fn set(&mut self, flag: &T, on: bool)
        ensures
            final(self).spec_bits() == if on {
                old(self).spec_bits() | flag.spec_mask()
            } else {
                old(self).spec_bits() & !flag.spec_mask()
            },
    {
        let m = flag.mask();
        if on {
            self.0 = self.0 | m;
        } else {
            self.0 = self.0 & !m;
        }
    }

    /// Whether the given flag is on.
    pub fn is_set(&self, flag: T) -> (r: bool)
        ensures
            r == ((self.spec_bits() & flag.spec_mask()) != 0),
    {
        (self.0 & flag.mask()) != 0
    }
}

/// Errors arising inside a single page.
#[derive(Clone, Copy, Debug, PartialEq, Eq, Structural)]
pub enum PageError {
    /// The page cannot take one more row; the ledger must allocate a new page.
    NoSpace,
    /// The requested slot lies beyond the page's capacity.
    RowIdOutOfBounds,
    /// The requested slot lies beyond the occupied slots.
    RowNotFound,
    /// The requested page lies beyond the allocated pages.
    PageIdOutOfBounds,
    /// A record failed to encode or decode.
    CodecError,
    /// A slice or integer conversion failed.
    ConversionError,
}

/// Errors surfaced by the ledger store.
#[derive(Debug, PartialEq, Eq)]
pub enum DatastoreError {
    /// A free-form contextual failure.
    Error(String),
    /// A page-level failure.
    PageError(PageError),
    /// The byte image does not hold a well-formed ledger.
    CorruptImage,
    /// A ledger name failed to parse.
    LedgerNameError(crate::header::LedgerNameError),
}

} // verus!
