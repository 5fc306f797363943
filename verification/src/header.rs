//! Page and ledger headers, and the fixed-width ledger name and description.
//!
//! Both headers have an exact little-endian byte layout, stated by
//! `spec_serialized` and produced/recovered by `serialize`/`deserialize`.

use crate::b64::{b64url_decode, b64url_decoded, b64url_encode, b64url_of};
use crate::codec::read_u32;
use crate::ledger::PAGE_HEADER_SZ;
use crate::utils::{BitMask, FlagMask};
use vstd::array::array_index_get;
use vstd::bytes::{spec_u32_to_le_bytes, u32_from_le_bytes, u32_to_le_bytes};
use vstd::prelude::*;
use vstd::slice::{slice_index_get, slice_subrange, slice_to_vec};
use vstd::string::StringSliceAdditionalSpecFns;

verus! {

/// The flags a page or ledger header can carry.
#[derive(Clone, Copy, Debug, PartialEq, Eq, Structural)]
pub enum HeaderFlags {
    /// The page or ledger is private.
    Private,
    /// The page or ledger is marked for deletion.
    DeleteMe,
}

impl FlagMask for HeaderFlags {
    open spec fn spec_mask(&self) -> u8 {
        match self {
            HeaderFlags::Private => 1u8,
            HeaderFlags::DeleteMe => 2u8,
        }
    }

    fn mask(&self) -> (r: u8) {
        match self {
            HeaderFlags::Private => 1,
            HeaderFlags::DeleteMe => 2,
        }
    }
}

/// The byte that results from turning on each flag of `flags` in turn.
pub open spec fn mask_bits(flags: Seq<HeaderFlags>) -> u8
    decreases flags.len(),
{
    if flags.len() == 0 {
        0u8
    } else {
        mask_bits(flags.drop_last()) | flags.last().spec_mask()
    }
}

/// Turns on every flag of `initial_flags` (if any) in a fresh mask.
fn collect_flags(initial_flags: &Option<Vec<HeaderFlags>>) -> (r: BitMask<HeaderFlags>)
    ensures
        r.spec_bits() == (match initial_flags {
            Option::None => 0u8,
            Option::Some(fl) => mask_bits(fl@),
        }),
{
    let mut flags = BitMask::<HeaderFlags>::new();
    match initial_flags {
        Option::None => {},
        Option::Some(fl) => {
            let mut i: usize = 0;
            while i < fl.len()
                invariant
                    i <= fl@.len(),
                    flags.spec_bits() == mask_bits(fl@.subrange(0, i as int)),
                decreases fl@.len() - i,
            {
                let f = fl[i];
                flags.set(&f, true);
                proof {
                    assert(fl@.subrange(0, i + 1).drop_last() == fl@.subrange(0, i as int));
                    assert(fl@.subrange(0, i + 1).last() == fl@[i as int]);
                }
                i = i + 1;
            }
            proof {
                assert(fl@.subrange(0, fl@.len() as int) == fl@);
            }
        },
    }
    flags
}

/// The sixteen-byte header at the start of every page.
#[derive(Debug)]
pub struct PageHeader {
    /// Reserved page type tag; currently always zero.
    pub page_type: u8,
    /// Page-level flag bits.
    pub flags: BitMask<HeaderFlags>,
    /// Number of occupied slots.
    pub slot_count: u32,
    /// First free byte for the slot directory.
    pub free_start: u32,
    /// One past the last free byte for cells.
    pub free_end: u32,
}

impl PageHeader {
    /// How many slots the page has filled.
    pub open spec fn spec_slot_count(&self) -> u32 {
        self.slot_count
    }

    /// First free byte after the slot directory.
    pub open spec fn spec_free_start(&self) -> u32 {
        self.free_start
    }

    /// One past the last free byte before the cells.
    pub open spec fn spec_free_end(&self) -> u32 {
        self.free_end
    }

    /// The exact sixteen-byte little-endian layout of the header.
    pub open spec fn spec_serialized(&self) -> Seq<u8> {
        seq![self.page_type, self.flags.spec_bits(), 0u8, 0u8]
            + spec_u32_to_le_bytes(self.spec_slot_count())
            + spec_u32_to_le_bytes(self.spec_free_start())
            + spec_u32_to_le_bytes(self.spec_free_end())
    }

    /// A fresh header for an empty page of `page_size` bytes.
    pub fn new(initial_flags: Option<Vec<HeaderFlags>>, page_size: u32) -> (r: Self)
        ensures
            r.page_type == 0,
            r.flags.spec_bits() == (match initial_flags {
                Option::None => 0u8,
                Option::Some(fl) => mask_bits(fl@),
            }),
            r.spec_slot_count() == 0,
            r.spec_free_start() == PAGE_HEADER_SZ,
            r.spec_free_end() == page_size,
    {
        let flags = collect_flags(&initial_flags);
        PageHeader {
            page_type: 0,
            flags,
            slot_count: 0,
            free_start: PAGE_HEADER_SZ,
            free_end: page_size,
        }
    }

    /// Returns the number of filled slots.
    pub fn slot_count(&self) -> (r: u32)
        ensures
            r == self.spec_slot_count(),
    {
        self.slot_count
    }

    /// Sets the number of filled slots, leaving every other field alone.
    pub fn set_slot_count(&mut self, v: u32)
        ensures
            final(self).spec_slot_count() == v,
            final(self).spec_free_start() == old(self).spec_free_start(),
            final(self).spec_free_end() == old(self).spec_free_end(),
            final(self).page_type == old(self).page_type,
            final(self).flags == old(self).flags,
    {
        self.slot_count = v;
    }

    /// Returns the first free byte after the slot directory.
    pub fn free_start(&self) -> (r: u32)
        ensures
            r == self.spec_free_start(),
    {
        self.free_start
    }

    /// Sets the first free byte after the slot directory.
    pub fn set_free_start(&mut self, v: u32)
        ensures
            final(self).spec_free_start() == v,
            final(self).spec_slot_count() == old(self).spec_slot_count(),
            final(self).spec_free_end() == old(self).spec_free_end(),
            final(self).page_type == old(self).page_type,
            final(self).flags == old(self).flags,
    {
        self.free_start = v;
    }

    /// Returns one past the last free byte before the cells.
    pub fn free_end(&self) -> (r: u32)
        ensures
            r == self.spec_free_end(),
    {
        self.free_end
    }

    /// Sets one past the last free byte before the cells.
    pub fn set_free_end(&mut self, v: u32)
        ensures
            final(self).spec_free_end() == v,
            final(self).spec_slot_count() == old(self).spec_slot_count(),
            final(self).spec_free_start() == old(self).spec_free_start(),
            final(self).page_type == old(self).page_type,
            final(self).flags == old(self).flags,
    {
        self.free_end = v;
    }

    /// How many free bytes lie between the slot directory and the cells.
    pub fn free_space(&self) -> (r: u32)
        requires
            self.spec_free_start() <= self.spec_free_end(),
        ensures
            r == self.spec_free_end() - self.spec_free_start(),
    {
        self.free_end - self.free_start
    }

    /// Renders the header into its sixteen-byte layout.
    pub fn serialize(&self) -> (r: Vec<u8>)
        ensures
            r@ == self.spec_serialized(),
            r@.len() == 16,
    {
        proof {
            vstd::bytes::lemma_auto_spec_u32_to_from_le_bytes();
        }
        let mut v: Vec<u8> = Vec::new();
        v.push(self.page_type);
        v.push(self.flags.bits());
        v.push(0);
        v.push(0);
        let mut b0 = u32_to_le_bytes(self.slot_count);
        v.append(&mut b0);
        let mut b1 = u32_to_le_bytes(self.free_start);
        v.append(&mut b1);
        let mut b2 = u32_to_le_bytes(self.free_end);
        v.append(&mut b2);
        proof {
            assert(v@ =~= self.spec_serialized());
        }
        v
    }

    /// Reads a header back from its sixteen-byte layout.
    pub fn deserialize(f: &[u8]) -> (r: Result<PageHeader, crate::utils::PageError>)
        ensures
            r is Ok <==> f@.len() == 16,
            r is Ok ==> (r->Ok_0).page_type == f@[0],
            r is Ok ==> (r->Ok_0).flags.spec_bits() == f@[1],
            r is Ok ==> (r->Ok_0).spec_slot_count() == read_u32(f@, 4),
            r is Ok ==> (r->Ok_0).spec_free_start() == read_u32(f@, 8),
            r is Ok ==> (r->Ok_0).spec_free_end() == read_u32(f@, 12),
    {
        if f.len() != 16 {
            return Err(crate::utils::PageError::ConversionError);
        }
        Ok(
            PageHeader {
                page_type: *slice_index_get(f, 0),
                flags: BitMask::from_bits(*slice_index_get(f, 1)),
                slot_count: u32_from_le_bytes(slice_subrange(f, 4, 8)),
                free_start: u32_from_le_bytes(slice_subrange(f, 8, 12)),
                free_end: u32_from_le_bytes(slice_subrange(f, 12, 16)),
            },
        )
    }
}

/// Reading the serialized page header back recovers every field: the codec
/// on page headers is lossless.
pub proof fn lemma_page_header_codec(h: PageHeader)
    ensures
        h.spec_serialized().len() == 16,
        h.spec_serialized()[0] == h.page_type,
        h.spec_serialized()[1] == h.flags.spec_bits(),
        read_u32(h.spec_serialized(), 4) == h.spec_slot_count(),
        read_u32(h.spec_serialized(), 8) == h.spec_free_start(),
        read_u32(h.spec_serialized(), 12) == h.spec_free_end(),
{
    vstd::bytes::lemma_auto_spec_u32_to_from_le_bytes();
    let s = h.spec_serialized();
    assert(s.subrange(4, 8) =~= spec_u32_to_le_bytes(h.spec_slot_count()));
    assert(s.subrange(8, 12) =~= spec_u32_to_le_bytes(h.spec_free_start()));
    assert(s.subrange(12, 16) =~= spec_u32_to_le_bytes(h.spec_free_end()));
}

/// Why a string failed to parse as a ledger name.
#[derive(Clone, Copy, Debug, PartialEq, Eq, Structural)]
pub enum LedgerNameError {
    /// The string is not valid URL-safe base64.
    InvalidBase64,
    /// The string decodes, but to this many bytes instead of nine.
    InvalidLength(usize),
}

/// A nine-byte ledger name, rendered on disk paths as twelve characters of
/// URL-safe, unpadded base64.
#[derive(Debug, PartialEq, Eq)]
pub struct LedgerName(Vec<u8>);

impl View for LedgerName {
    type V = Seq<u8>;

    closed spec fn view(&self) -> Seq<u8> {
        self.0@
    }
}

impl LedgerName {
    /// A name always holds exactly nine bytes.
    pub open spec fn inv(&self) -> bool {
        self@.len() == 9
    }

    /// A name made of exactly the given bytes.
    pub fn new(data: [u8; 9]) -> (r: Self)
        ensures
            r@ == data@,
            r.inv(),
    {
        let mut v: Vec<u8> = Vec::new();
        let mut i: usize = 0;
        while i < 9
            invariant
                i <= 9,
                v@ == data@.subrange(0, i as int),
            decreases 9 - i,
        {
            v.push(*array_index_get(&data, i));
            proof {
                assert(data@.subrange(0, i + 1) == data@.subrange(0, i as int).push(
                    data@[i as int],
                ));
            }
            i = i + 1;
        }
        proof {
            assert(data@.subrange(0, 9) == data@);
        }
        LedgerName(v)
    }

    /// A name holding the bytes of `input`, truncated to nine bytes and
    /// padded with spaces.
    pub fn from_text(input: &str) -> (r: Self)
        ensures
            r@ == spec_space_padded(input.spec_bytes(), 9),
            r.inv(),
    {
        let bytes = input.as_bytes();
        let len = if bytes.len() < 9 {
            bytes.len()
        } else {
            9
        };
        let mut v: Vec<u8> = Vec::new();
        let mut i: usize = 0;
        while i < len
            invariant
                len <= bytes@.len(),
                len <= 9,
                i <= len,
                v@.len() == i,
                forall|j: int| 0 <= j < i ==> v@[j] == bytes@[j],
            decreases len - i,
        {
            v.push(*slice_index_get(bytes, i));
            i = i + 1;
        }
        while i < 9
            invariant
                len <= bytes@.len(),
                len <= i <= 9,
                v@.len() == i,
                forall|j: int| 0 <= j < len ==> v@[j] == bytes@[j],
                forall|j: int| len <= j < i ==> v@[j] == 32u8,
            decreases 9 - i,
        {
            v.push(32);
            i = i + 1;
        }
        proof {
            assert(v@ =~= spec_space_padded(input.spec_bytes(), 9));
        }
        LedgerName(v)
    }

    /// Parses a name from its base64 rendering: `Ok` exactly on canonical
    /// encodings of nine bytes.
    pub fn from_string(s: &str) -> (r: Result<LedgerName, LedgerNameError>)
        ensures
            b64url_decoded(s@) is None ==> r == Err::<LedgerName, LedgerNameError>(
                LedgerNameError::InvalidBase64,
            ),
            (b64url_decoded(s@) matches Some(b) && b.len() == 9) ==> (r matches Ok(n) && n@ == b64url_decoded(s@)->Some_0),
            (b64url_decoded(s@) matches Some(b) && b.len() != 9) ==> r == Err::<
                LedgerName,
                LedgerNameError,
            >(LedgerNameError::InvalidLength(b64url_decoded(s@)->Some_0.len() as usize)),
            r is Ok ==> (r->Ok_0).inv(),
    {
        match b64url_decode(s) {
            Err(()) => Err(LedgerNameError::InvalidBase64),
            Ok(v) => {
                if v.len() == 9 {
                    Ok(LedgerName(v))
                } else {
                    Err(LedgerNameError::InvalidLength(v.len()))
                }
            },
        }
    }

    /// Renders the name as twelve characters of URL-safe, unpadded base64.
    pub fn to_string(&self) -> (r: String)
        requires
            self.inv(),
        ensures
            r@ == b64url_of(self@),
            r@.len() == 12,
            b64url_decoded(r@) == Some(self@),
    {
        b64url_encode(&self.0)
    }

    /// The raw bytes of the name.
    pub fn as_bytes(&self) -> (r: &Vec<u8>)
        ensures
            r@ == self@,
    {
        &self.0
    }
}

/// Why a string failed to parse as a ledger description.
#[derive(Clone, Copy, Debug, PartialEq, Eq, Structural)]
pub enum LedgerDescriptionError {
    /// The string is not valid URL-safe base64.
    InvalidBase64,
    /// The string decodes, but to this many bytes instead of thirty-two.
    InvalidLength(usize),
}

/// `b`, truncated to at most `n` bytes and padded with spaces up to `n`.
pub open spec fn spec_space_padded(b: Seq<u8>, n: int) -> Seq<u8> {
    Seq::new(
        n as nat,
        |i: int|
            if i < b.len() {
                b[i]
            } else {
                32u8
            },
    )
}

/// A thirty-two byte, space-padded ledger description.
#[derive(Debug, PartialEq, Eq)]
pub struct LedgerDescription(Vec<u8>);

impl View for LedgerDescription {
    type V = Seq<u8>;

    closed spec fn view(&self) -> Seq<u8> {
        self.0@
    }
}

impl LedgerDescription {
    /// A description always holds exactly thirty-two bytes.
    pub open spec fn inv(&self) -> bool {
        self@.len() == 32
    }

    /// A description holding the bytes of `input`, truncated to thirty-two
    /// bytes and padded with spaces.
    pub fn new(input: &str) -> (r: Self)
        ensures
            r@ == spec_space_padded(input.spec_bytes(), 32),
            r.inv(),
    {
        let bytes = input.as_bytes();
        let len = if bytes.len() < 32 {
            bytes.len()
        } else {
            32
        };
        let mut v: Vec<u8> = Vec::new();
        let mut i: usize = 0;
        while i < len
            invariant
                len <= bytes@.len(),
                len <= 32,
                i <= len,
                v@.len() == i,
                forall|j: int| 0 <= j < i ==> v@[j] == bytes@[j],
            decreases len - i,
        {
            v.push(*slice_index_get(bytes, i));
            i = i + 1;
        }
        while i < 32
            invariant
                len <= bytes@.len(),
                len <= i <= 32,
                v@.len() == i,
                forall|j: int| 0 <= j < len ==> v@[j] == bytes@[j],
                forall|j: int| len <= j < i ==> v@[j] == 32u8,
            decreases 32 - i,
        {
            v.push(32);
            i = i + 1;
        }
        proof {
            assert(v@ =~= spec_space_padded(input.spec_bytes(), 32));
        }
        LedgerDescription(v)
    }

    /// Parses a description from its base64 rendering: `Ok` exactly on
    /// canonical encodings of thirty-two bytes.
    pub fn from_string(s: &str) -> (r: Result<LedgerDescription, LedgerDescriptionError>)
        ensures
            b64url_decoded(s@) is None ==> r == Err::<LedgerDescription, LedgerDescriptionError>(
                LedgerDescriptionError::InvalidBase64,
            ),
            (b64url_decoded(s@) matches Some(b) && b.len() == 32) ==> (r matches Ok(d) && d@ == b64url_decoded(s@)->Some_0),
            (b64url_decoded(s@) matches Some(b) && b.len() != 32) ==> r == Err::<
                LedgerDescription,
                LedgerDescriptionError,
            >(LedgerDescriptionError::InvalidLength(b64url_decoded(s@)->Some_0.len() as usize)),
            r is Ok ==> (r->Ok_0).inv(),
    {
        match b64url_decode(s) {
            Err(()) => Err(LedgerDescriptionError::InvalidBase64),
            Ok(v) => {
                if v.len() == 32 {
                    Ok(LedgerDescription(v))
                } else {
                    Err(LedgerDescriptionError::InvalidLength(v.len()))
                }
            },
        }
    }

    /// Renders the description as URL-safe, unpadded base64.
    pub fn to_string(&self) -> (r: String)
        requires
            self.inv(),
        ensures
            r@ == b64url_of(self@),
            r@.len() == 43,
            b64url_decoded(r@) == Some(self@),
    {
        b64url_encode(&self.0)
    }

    /// The raw bytes of the description.
    pub fn as_bytes(&self) -> (r: &Vec<u8>)
        ensures
            r@ == self@,
    {
        &self.0
    }
}

/// The sixty-eight byte header at the start of the ledger image.
#[derive(Debug)]
pub struct LedgerHeader {
    /// Ledger-level flag bits.
    pub flags: BitMask<HeaderFlags>,
    /// The nine-byte ledger name.
    pub ledger_name: LedgerName,
    /// The thirty-two byte ledger description.
    pub ledger_description: LedgerDescription,
    /// How many pages the ledger has allocated.
    pub num_pages: u32,
    /// Recorded rows-per-page hint; the schema constant is authoritative.
    pub rows_per_page: u32,
    /// Id of the page currently taking inserts.
    pub page_cursor: u32,
}

impl LedgerHeader {
    /// The bytes of the ledger name.
    pub open spec fn spec_name(&self) -> Seq<u8> {
        self.ledger_name@
    }

    /// The bytes of the ledger description.
    pub open spec fn spec_description(&self) -> Seq<u8> {
        self.ledger_description@
    }

    /// How many pages the ledger has allocated.
    pub open spec fn spec_num_pages(&self) -> u32 {
        self.num_pages
    }

    /// The recorded rows-per-page hint (the schema constant is authoritative).
    pub open spec fn spec_rows_per_page(&self) -> u32 {
        self.rows_per_page
    }

    /// The id of the page currently taking inserts.
    pub open spec fn spec_page_cursor(&self) -> u32 {
        self.page_cursor
    }

    /// Name and description hold their fixed widths.
    pub open spec fn inv(&self) -> bool {
        self.spec_name().len() == 9 && self.spec_description().len() == 32
    }

    /// The exact sixty-eight byte little-endian layout of the header.
    pub open spec fn spec_serialized(&self) -> Seq<u8> {
        seq![self.flags.spec_bits()] + self.spec_name() + self.spec_description()
            + spec_u32_to_le_bytes(self.spec_num_pages()) + spec_u32_to_le_bytes(
            self.spec_rows_per_page(),
        ) + spec_u32_to_le_bytes(self.spec_page_cursor()) + Seq::new(14, |i: int| 0u8)
    }

    /// A fresh header with all counters zero.
    pub fn new(
        ledger_name: LedgerName,
        ledger_description: LedgerDescription,
        initial_flags: Option<Vec<HeaderFlags>>,
    ) -> (r: Self)
        ensures
            r.spec_name() == ledger_name@,
            r.spec_description() == ledger_description@,
            r.spec_num_pages() == 0,
            r.spec_rows_per_page() == 0,
            r.spec_page_cursor() == 0,
            r.flags.spec_bits() == (match initial_flags {
                Option::None => 0u8,
                Option::Some(fl) => mask_bits(fl@),
            }),
            ledger_name.inv() && ledger_description.inv() ==> r.inv(),
    {
        let flags = collect_flags(&initial_flags);
        LedgerHeader {
            flags,
            ledger_name,
            ledger_description,
            num_pages: 0,
            rows_per_page: 0,
            page_cursor: 0,
        }
    }

    /// The base64 rendering of the ledger name.
    pub fn name(&self) -> (r: String)
        requires
            self.inv(),
        ensures
            r@ == b64url_of(self.spec_name()),
            r@.len() == 12,
    {
        self.ledger_name.to_string()
    }

    /// Returns the recorded rows-per-page hint.
    pub fn rows_per_page(&self) -> (r: u32)
        ensures
            r == self.spec_rows_per_page(),
    {
        self.rows_per_page
    }

    /// Sets the recorded rows-per-page hint.
    pub fn set_rows_per_page(&mut self, v: u32)
        ensures
            final(self).spec_rows_per_page() == v,
            final(self).spec_num_pages() == old(self).spec_num_pages(),
            final(self).spec_page_cursor() == old(self).spec_page_cursor(),
            final(self).spec_name() == old(self).spec_name(),
            final(self).spec_description() == old(self).spec_description(),
            final(self).flags == old(self).flags,
    {
        self.rows_per_page = v;
    }

    /// Returns the number of allocated pages.
    pub fn num_pages(&self) -> (r: u32)
        ensures
            r == self.spec_num_pages(),
    {
        self.num_pages
    }

    /// Sets the number of allocated pages.
    pub fn set_num_pages(&mut self, v: u32)
        ensures
            final(self).spec_num_pages() == v,
            final(self).spec_rows_per_page() == old(self).spec_rows_per_page(),
            final(self).spec_page_cursor() == old(self).spec_page_cursor(),
            final(self).spec_name() == old(self).spec_name(),
            final(self).spec_description() == old(self).spec_description(),
            final(self).flags == old(self).flags,
    {
        self.num_pages = v;
    }

    /// Returns the id of the page currently taking inserts.
    pub fn page_cursor(&self) -> (r: u32)
        ensures
            r == self.spec_page_cursor(),
    {
        self.page_cursor
    }

    /// Sets the id of the page currently taking inserts.
    pub fn set_page_cursor(&mut self, v: u32)
        ensures
            final(self).spec_page_cursor() == v,
            final(self).spec_num_pages() == old(self).spec_num_pages(),
            final(self).spec_rows_per_page() == old(self).spec_rows_per_page(),
            final(self).spec_name() == old(self).spec_name(),
            final(self).spec_description() == old(self).spec_description(),
            final(self).flags == old(self).flags,
    {
        self.page_cursor = v;
    }

    /// Moves the page cursor one page forward.
    pub fn inc_page_cursor(&mut self)
        requires
            old(self).spec_page_cursor() < u32::MAX,
        ensures
            final(self).spec_page_cursor() == old(self).spec_page_cursor() + 1,
            final(self).spec_num_pages() == old(self).spec_num_pages(),
            final(self).spec_rows_per_page() == old(self).spec_rows_per_page(),
            final(self).spec_name() == old(self).spec_name(),
            final(self).spec_description() == old(self).spec_description(),
            final(self).flags == old(self).flags,
    {
        self.page_cursor = self.page_cursor + 1;
    }

    /// Moves the page cursor one page back.
    pub fn dec_page_cursor(&mut self)
        requires
            old(self).spec_page_cursor() > 0,
        ensures
            final(self).spec_page_cursor() == old(self).spec_page_cursor() - 1,
            final(self).spec_num_pages() == old(self).spec_num_pages(),
            final(self).spec_rows_per_page() == old(self).spec_rows_per_page(),
            final(self).spec_name() == old(self).spec_name(),
            final(self).spec_description() == old(self).spec_description(),
            final(self).flags == old(self).flags,
    {
        self.page_cursor = self.page_cursor - 1;
    }

    /// The total row count: every page but the tail is full, and the tail
    /// holds `tail_slot_count` rows.
    pub fn num_rows(&self, max_rows_per_page: u32, tail_slot_count: u32) -> (r: u32)
        requires
            self.spec_num_pages() >= 1,
            (self.spec_num_pages() - 1) * max_rows_per_page + tail_slot_count <= u32::MAX,
        ensures
            r == (self.spec_num_pages() - 1) * max_rows_per_page + tail_slot_count,
    {
        (self.num_pages - 1) * max_rows_per_page + tail_slot_count
    }

    /// Renders the header into its sixty-eight byte layout.
    pub fn serialize(&self) -> (r: Vec<u8>)
        requires
            self.inv(),
        ensures
            r@ == self.spec_serialized(),
            r@.len() == 68,
    {
        proof {
            vstd::bytes::lemma_auto_spec_u32_to_from_le_bytes();
        }
        let mut v: Vec<u8> = Vec::new();
        v.push(self.flags.bits());
        crate::codec::push_bytes(&mut v, self.ledger_name.as_bytes());
        crate::codec::push_bytes(&mut v, self.ledger_description.as_bytes());
        let mut b0 = u32_to_le_bytes(self.num_pages);
        v.append(&mut b0);
        let mut b1 = u32_to_le_bytes(self.rows_per_page);
        v.append(&mut b1);
        let mut b2 = u32_to_le_bytes(self.page_cursor);
        v.append(&mut b2);
        crate::codec::push_zeros(&mut v, 14);
        proof {
            assert(v@ =~= self.spec_serialized());
        }
        v
    }

    /// Reads a header back from its sixty-eight byte layout.
    pub fn deserialize(f: &[u8]) -> (r: Result<LedgerHeader, crate::utils::DatastoreError>)
        ensures
            r is Ok <==> f@.len() == 68,
            r is Ok ==> (r->Ok_0).flags.spec_bits() == f@[0],
            r is Ok ==> (r->Ok_0).spec_name() == f@.subrange(1, 10),
            r is Ok ==> (r->Ok_0).spec_description() == f@.subrange(10, 42),
            r is Ok ==> (r->Ok_0).spec_num_pages() == read_u32(f@, 42),
            r is Ok ==> (r->Ok_0).spec_rows_per_page() == read_u32(f@, 46),
            r is Ok ==> (r->Ok_0).spec_page_cursor() == read_u32(f@, 50),
            r is Ok ==> (r->Ok_0).inv(),
    {
        if f.len() != 68 {
            return Err(crate::utils::DatastoreError::CorruptImage);
        }
        Ok(
            LedgerHeader {
                flags: BitMask::from_bits(*slice_index_get(f, 0)),
                ledger_name: LedgerName(slice_to_vec(slice_subrange(f, 1, 10))),
                ledger_description: LedgerDescription(slice_to_vec(slice_subrange(f, 10, 42))),
                num_pages: u32_from_le_bytes(slice_subrange(f, 42, 46)),
                rows_per_page: u32_from_le_bytes(slice_subrange(f, 46, 50)),
                page_cursor: u32_from_le_bytes(slice_subrange(f, 50, 54)),
            },
        )
    }
}

/// Reading the serialized ledger header back recovers every field: the codec
/// on ledger headers is lossless.
pub proof fn lemma_ledger_header_codec(h: LedgerHeader)
    requires
        h.inv(),
    ensures
        h.spec_serialized().len() == 68,
        h.spec_serialized()[0] == h.flags.spec_bits(),
        h.spec_serialized().subrange(1, 10) == h.spec_name(),
        h.spec_serialized().subrange(10, 42) == h.spec_description(),
        read_u32(h.spec_serialized(), 42) == h.spec_num_pages(),
        read_u32(h.spec_serialized(), 46) == h.spec_rows_per_page(),
        read_u32(h.spec_serialized(), 50) == h.spec_page_cursor(),
{
    vstd::bytes::lemma_auto_spec_u32_to_from_le_bytes();
    let s = h.spec_serialized();
    assert(s.subrange(1, 10) =~= h.spec_name());
    assert(s.subrange(10, 42) =~= h.spec_description());
    assert(s.subrange(42, 46) =~= spec_u32_to_le_bytes(h.spec_num_pages()));
    assert(s.subrange(46, 50) =~= spec_u32_to_le_bytes(h.spec_rows_per_page()));
    assert(s.subrange(50, 54) =~= spec_u32_to_le_bytes(h.spec_page_cursor()));
}

} // verus!
