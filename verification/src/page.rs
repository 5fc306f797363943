//! Slotted pages and the record schema contract.
//!
//! A page is a `spec_page_size`-byte block: a sixteen-byte [`PageHeader`]
//! image, then a slot directory of little-endian `u32` cell offsets growing
//! forward, free space, and the record cells growing backward from the end.
//! Because every record is exactly one row wide and rows are never resized,
//! slot `i` always names the cell `[len - (i+1)*S, len - i*S)`.

use crate::codec::{read_u32, read_u32_at, write_bytes, write_u32_at};
use crate::header::PageHeader;
use crate::ledger::PAGE_HEADER_SZ;
use crate::utils::PageError;
use vstd::arithmetic::div_mod::{
    lemma_div_by_self, lemma_div_is_ordered, lemma_div_multiples_vanish,
    lemma_fundamental_div_mod, lemma_remainder_lower,
};
use vstd::arithmetic::mul::lemma_mul_inequality;
use vstd::prelude::*;
use vstd::slice::slice_subrange;

verus! {

/// What a record type must provide to live in a page: its fixed on-disk
/// size, the page provisioning, and a lossless byte codec.  The codec is
/// stated against the record's mathematical view.
pub trait PageSchema: Sized + View {
    /// The fixed on-disk size of one record, in bytes.
    spec fn spec_row_size() -> int;

    /// How many rows each page is provisioned for.
    spec fn spec_rows_per_page() -> int;

    /// Validity of an in-memory record.
    spec fn inv(&self) -> bool;

    /// The exact bytes the record encodes to.
    spec fn spec_encoded(&self) -> Seq<u8>;

    /// The view of the record a full cell of bytes decodes to.
    spec fn spec_decoded(b: Seq<u8>) -> Self::V;

    /// The sentinel written over a logically deleted cell; empty means
    /// "no sentinel, leave the cell intact".
    spec fn spec_deleted(page_row_n: int) -> Seq<u8>;

    /// The schema's size facts: a row is at least one byte, a page holds at
    /// least one row beside its directory entry, and every page offset fits
    /// comfortably in a `u32`.
    proof fn schema_bounds()
        ensures
            1 <= Self::spec_row_size(),
            1 <= Self::spec_rows_per_page(),
            Self::spec_row_size() + 4 <= Self::spec_row_size() * Self::spec_rows_per_page(),
            16 + Self::spec_row_size() * Self::spec_rows_per_page() <= 0x7fffffff,
    ;

    /// A valid record encodes to exactly one row of bytes.
    proof fn lemma_encoded_len(&self)
        requires
            self.inv(),
        ensures
            self.spec_encoded().len() == Self::spec_row_size(),
    ;

    /// Decoding inverts encoding on valid records.
    proof fn lemma_codec_round_trip(&self)
        requires
            self.inv(),
        ensures
            Self::spec_decoded(self.spec_encoded()) == self@,
    ;

    /// The deleted-row sentinel is empty or exactly one row.
    proof fn lemma_deleted_len(page_row_n: int)
        ensures
            Self::spec_deleted(page_row_n).len() == 0 || Self::spec_deleted(page_row_n).len()
                == Self::spec_row_size(),
    ;

    /// Returns the fixed on-disk size of one record.
    fn row_size() -> (r: usize)
        ensures
            r as int == Self::spec_row_size(),
    ;

    /// Returns how many rows each page is provisioned for.
    fn rows_per_page() -> (r: usize)
        ensures
            r as int == Self::spec_rows_per_page(),
    ;

    /// Encodes the record into one row of bytes.
    fn to_bytes(&self) -> (r: Vec<u8>)
        requires
            self.inv(),
        ensures
            r@ == self.spec_encoded(),
    ;

    /// Decodes a record from a full cell of bytes.
    fn from_bytes(f: &[u8]) -> (r: Self)
        requires
            f@.len() == Self::spec_row_size(),
        ensures
            r@ == Self::spec_decoded(f@),
            r.inv(),
    ;

    /// Returns the sentinel for a logically deleted cell at the given slot.
    fn deleted_row(page_row_n: usize) -> (r: Vec<u8>)
        ensures
            r@ == Self::spec_deleted(page_row_n as int),
    ;
}

/// The byte size of a page provisioned for `rpp` rows of `s` bytes.
pub open spec fn spec_page_size(s: int, rpp: int) -> int {
    16 + s * rpp
}

/// How many rows actually fit: each costs its cell plus a four-byte slot.
pub open spec fn spec_max_rows(s: int, rpp: int) -> int {
    (s * rpp) / (s + 4)
}

/// The page size in bytes for the schema `T`.
pub fn page_sz<T: PageSchema>() -> (r: u32)
    ensures
        r as int == spec_page_size(T::spec_row_size(), T::spec_rows_per_page()),
{
    proof {
        T::schema_bounds();
        lemma_operand_bounds(T::spec_row_size(), T::spec_rows_per_page());
    }
    let s = T::row_size();
    let rpp = T::rows_per_page();
    PAGE_HEADER_SZ + (s as u32) * (rpp as u32)
}

/// Each factor of the page body is at most the whole body.
pub proof fn lemma_operand_bounds(s: int, rpp: int)
    requires
        1 <= s,
        1 <= rpp,
    ensures
        s <= s * rpp,
        rpp <= s * rpp,
{
    lemma_mul_inequality(1, rpp, s);
    vstd::arithmetic::mul::lemma_mul_is_commutative(rpp, s);
    lemma_mul_inequality(1, s, rpp);
}

/// The size facts every well-formed slot count obeys: the directory and the
/// cells never meet.
pub proof fn lemma_max_rows_cap(s: int, rpp: int)
    requires
        1 <= s,
        1 <= rpp,
        s + 4 <= s * rpp,
    ensures
        1 <= spec_max_rows(s, rpp),
        spec_max_rows(s, rpp) * (s + 4) <= s * rpp,
{
    let d = s + 4;
    let x = s * rpp;
    lemma_div_by_self(d);
    lemma_div_is_ordered(d, x, d);
    lemma_fundamental_div_mod(x, d);
    lemma_remainder_lower(x, d);
}

/// Under the capacity bound the slot directory never reaches the cells.
pub proof fn lemma_wf_bounds(s: int, rpp: int, k: int)
    requires
        1 <= s,
        1 <= rpp,
        s + 4 <= s * rpp,
        0 <= k,
        k <= spec_max_rows(s, rpp),
    ensures
        k * (s + 4) == k * s + 4 * k,
        k * (s + 4) <= s * rpp,
        0 <= k * s,
        16 + 4 * k <= spec_page_size(s, rpp) - k * s,
        k * s <= s * rpp,
{
    lemma_max_rows_cap(s, rpp);
    lemma_mul_inequality(k, spec_max_rows(s, rpp), s + 4);
    vstd::arithmetic::mul::lemma_mul_is_distributive_add(k, s, 4);
    vstd::arithmetic::mul::lemma_mul_nonnegative(k, s);
}

/// A slot count is below capacity exactly when one more row (cell plus slot)
/// still fits.
pub proof fn lemma_below_capacity(s: int, rpp: int, k: int)
    requires
        1 <= s,
        1 <= rpp,
        s + 4 <= s * rpp,
        0 <= k,
    ensures
        k < spec_max_rows(s, rpp) <==> (k + 1) * (s + 4) <= s * rpp,
{
    let d = s + 4;
    let x = s * rpp;
    let m = spec_max_rows(s, rpp);
    lemma_max_rows_cap(s, rpp);
    if (k + 1) * d <= x {
        lemma_div_is_ordered((k + 1) * d, x, d);
        lemma_div_multiples_vanish(k + 1, d);
        assert(d * (k + 1) == (k + 1) * d) by {
            vstd::arithmetic::mul::lemma_mul_is_commutative(d, k + 1);
        }
        assert(k + 1 <= m);
    }
    if k < m {
        lemma_mul_inequality(k + 1, m, d);
        assert((k + 1) * d <= m * d);
    }
}

/// The exact bytes of a freshly initialized page: a zero-filled block whose
/// header records no slots, the directory starting right after it, and the
/// cell area ending at the page's end.
pub open spec fn spec_fresh_page(s: int, rpp: int) -> Seq<u8> {
    seq![0u8, 0u8, 0u8, 0u8] + vstd::bytes::spec_u32_to_le_bytes(0u32)
        + vstd::bytes::spec_u32_to_le_bytes(16u32) + vstd::bytes::spec_u32_to_le_bytes(
        (16 + s * rpp) as u32,
    ) + Seq::new((s * rpp) as nat, |i: int| 0u8)
}

/// The exact bytes of a page after inserting `cell` into slot `k`: the three
/// header counters advance, the new slot entry names the new cell, the cell
/// itself is written, and every other byte is left alone.
pub open spec fn page_after_insert(d: Seq<u8>, s: int, k: int, cell: Seq<u8>) -> Seq<u8> {
    Seq::new(
        d.len(),
        |j: int|
            if 4 <= j < 8 {
                vstd::bytes::spec_u32_to_le_bytes((k + 1) as u32)[j - 4]
            } else if 8 <= j < 12 {
                vstd::bytes::spec_u32_to_le_bytes((16 + 4 * (k + 1)) as u32)[j - 8]
            } else if 12 <= j < 16 {
                vstd::bytes::spec_u32_to_le_bytes((d.len() - (k + 1) * s) as u32)[j - 12]
            } else if 16 + 4 * k <= j < 16 + 4 * k + 4 {
                vstd::bytes::spec_u32_to_le_bytes((d.len() - (k + 1) * s) as u32)[j - (16 + 4 * k)]
            } else if d.len() - (k + 1) * s <= j < d.len() - k * s {
                cell[j - (d.len() - (k + 1) * s)]
            } else {
                d[j]
            },
    )
}

/// The exact bytes of a page after rewriting the cell of slot `n` with
/// `cell`: only that cell changes.
pub open spec fn page_after_write(d: Seq<u8>, s: int, n: int, cell: Seq<u8>) -> Seq<u8> {
    Seq::new(
        d.len(),
        |j: int|
            if d.len() - (n + 1) * s <= j < d.len() - n * s {
                cell[j - (d.len() - (n + 1) * s)]
            } else {
                d[j]
            },
    )
}

/// How many slots the page bytes record as filled.
pub open spec fn page_slot_count(d: Seq<u8>) -> int {
    read_u32(d, 4) as int
}

/// The cell of slot `i`: rows pack backward from the end of the page.
pub open spec fn page_cell(d: Seq<u8>, s: int, i: int) -> Seq<u8> {
    d.subrange(d.len() - (i + 1) * s, d.len() - i * s)
}

/// All filled cells of the page, in slot order.
pub open spec fn page_cells(d: Seq<u8>, s: int) -> Seq<Seq<u8>> {
    Seq::new(page_slot_count(d) as nat, |i: int| page_cell(d, s, i))
}

/// Well-formedness of raw page bytes: the header's three counters agree with
/// the slot count, and every slot directory entry names its packed cell.
pub open spec fn page_wf(d: Seq<u8>, s: int, rpp: int) -> bool {
    let k = page_slot_count(d);
    &&& d.len() == spec_page_size(s, rpp)
    &&& k <= spec_max_rows(s, rpp)
    &&& read_u32(d, 8) as int == 16 + 4 * k
    &&& read_u32(d, 12) as int == d.len() - k * s
    &&& forall|i: int|
        0 <= i < k ==> #[trigger] read_u32(d, 16 + 4 * i) as int == d.len() - (i + 1) * s
}

/// The slotted-page layout invariant, as plain arithmetic: the slot
/// directory ends exactly at `free_start`, the used cells fill the page back
/// from `free_end`, and the directory never crosses into the cells.
pub proof fn lemma_page_layout<T: PageSchema>(pg: &SlottedPage<T>)
    requires
        pg.wf(),
    ensures
        read_u32(pg.data@, 8) as int == 16 + 4 * pg.spec_slot_count(),
        read_u32(pg.data@, 12) as int + pg.spec_slot_count() * T::spec_row_size()
            == spec_page_size(T::spec_row_size(), T::spec_rows_per_page()),
        read_u32(pg.data@, 8) <= read_u32(pg.data@, 12),
{
    T::schema_bounds();
    lemma_wf_bounds(T::spec_row_size(), T::spec_rows_per_page(), pg.spec_slot_count());
}

/// One fixed-size page of records.
#[derive(Debug)]
pub struct SlottedPage<T> {
    /// The raw page bytes.
    pub data: Vec<u8>,
    /// Carries the record type; a page stores rows of exactly one schema.
    pub row_type: core::marker::PhantomData<T>,
}

impl<T: PageSchema> SlottedPage<T> {
    /// Well-formedness of the page bytes for this schema.
    pub open spec fn wf(&self) -> bool {
        page_wf(self.data@, T::spec_row_size(), T::spec_rows_per_page())
    }

    /// How many slots the page has filled.
    pub open spec fn spec_slot_count(&self) -> int {
        page_slot_count(self.data@)
    }

    /// The filled cells, in slot order.
    pub open spec fn cells(&self) -> Seq<Seq<u8>> {
        page_cells(self.data@, T::spec_row_size())
    }

    /// A fresh, empty page: `spec_page_size` zero-filled bytes, with a fresh
    /// header written over the first sixteen.
    pub fn new() -> (r: Self)
        ensures
            r.wf(),
            r.spec_slot_count() == 0,
            r.cells() == Seq::<Seq<u8>>::empty(),
            r.data@ == spec_fresh_page(T::spec_row_size(), T::spec_rows_per_page()),
    {
        proof {
            T::schema_bounds();
            lemma_max_rows_cap(T::spec_row_size(), T::spec_rows_per_page());
        }
        let psz_u32 = page_sz::<T>();
        let psz = psz_u32 as usize;
        let mut data: Vec<u8> = Vec::new();
        crate::codec::push_zeros(&mut data, psz);
        let header = PageHeader::new(None, psz_u32);
        let hb = header.serialize();
        write_bytes(&mut data, 0, &hb);
        proof {
            crate::header::lemma_page_header_codec(header);
            vstd::bytes::lemma_auto_spec_u32_to_from_le_bytes();
            assert(data@.subrange(4, 8) =~= hb@.subrange(4, 8));
            assert(data@.subrange(8, 12) =~= hb@.subrange(8, 12));
            assert(data@.subrange(12, 16) =~= hb@.subrange(12, 16));
            assert(read_u32(data@, 4) == header.spec_slot_count());
            assert(read_u32(data@, 8) == header.spec_free_start());
            assert(read_u32(data@, 12) == header.spec_free_end());
            assert(page_cells(data@, T::spec_row_size()) =~= Seq::<Seq<u8>>::empty());
            assert(data@ =~= spec_fresh_page(T::spec_row_size(), T::spec_rows_per_page()));
        }
        SlottedPage { data, row_type: core::marker::PhantomData }
    }

    /// Validates raw bytes as a page of this schema: `Ok` exactly on
    /// well-formed page bytes, which the page then adopts unchanged.
    pub fn from_image(data: Vec<u8>) -> (r: Result<Self, PageError>)
        ensures
            r is Ok <==> page_wf(data@, T::spec_row_size(), T::spec_rows_per_page()),
            r is Ok ==> (r->Ok_0).data@ == data@,
    {
        let ghost s = T::spec_row_size();
        let ghost rpp = T::spec_rows_per_page();
        proof {
            T::schema_bounds();
            lemma_operand_bounds(s, rpp);
            lemma_max_rows_cap(s, rpp);
        }
        let psz = page_sz::<T>() as usize;
        if data.len() != psz {
            return Err(PageError::ConversionError);
        }
        let k_u32 = read_u32_at(&data, 4);
        let k = k_u32 as usize;
        let m = Self::max_rows_per_page();
        if k > m {
            return Err(PageError::ConversionError);
        }
        proof {
            lemma_wf_bounds(s, rpp, k as int);
        }
        let row_sz = T::row_size();
        let fs = read_u32_at(&data, 8);
        let fe = read_u32_at(&data, 12);
        if fs as usize != 16 + 4 * k {
            return Err(PageError::ConversionError);
        }
        if fe as usize != psz - k * row_sz {
            return Err(PageError::ConversionError);
        }
        let mut i: usize = 0;
        while i < k
            invariant
                i <= k,
                k <= spec_max_rows(s, rpp),
                s == T::spec_row_size(),
                rpp == T::spec_rows_per_page(),
                1 <= s,
                1 <= rpp,
                s + 4 <= s * rpp,
                row_sz as int == s,
                psz == spec_page_size(s, rpp),
                data@.len() == psz,
                k as int == page_slot_count(data@),
                forall|j: int|
                    0 <= j < i ==> #[trigger] read_u32(data@, 16 + 4 * j) as int == psz - (j + 1)
                        * s,
            decreases k - i,
        {
            proof {
                lemma_wf_bounds(s, rpp, k as int);
                assert((i + 1) * s <= k * s && 0 <= i * s && (i + 1) * s == i * s + s)
                    by (nonlinear_arith)
                    requires
                        0 <= i,
                        i + 1 <= k,
                        s >= 1,
                ;
            }
            let entry = read_u32_at(&data, PAGE_HEADER_SZ as usize + 4 * i);
            if entry as usize != psz - (i + 1) * row_sz {
                return Err(PageError::ConversionError);
            }
            i = i + 1;
        }
        Ok(SlottedPage { data, row_type: core::marker::PhantomData })
    }

    /// Reads the page header out of the first sixteen bytes.
    pub fn access_header(&self) -> (r: Result<PageHeader, PageError>)
        requires
            self.wf(),
        ensures
            r is Ok,
            (r->Ok_0).spec_slot_count() as int == self.spec_slot_count(),
            (r->Ok_0).spec_free_start() as int == 16 + 4 * self.spec_slot_count(),
            (r->Ok_0).spec_free_end() as int == self.data@.len() - self.spec_slot_count()
                * T::spec_row_size(),
    {
        proof {
            T::schema_bounds();
        }
        let data_len = self.data.len();
        let h = PageHeader::deserialize(slice_subrange(self.data.as_slice(), 0, 16));
        proof {
            let hs = self.data@.subrange(0, 16);
            assert(hs.subrange(4, 8) =~= self.data@.subrange(4, 8));
            assert(hs.subrange(8, 12) =~= self.data@.subrange(8, 12));
            assert(hs.subrange(12, 16) =~= self.data@.subrange(12, 16));
        }
        h
    }

    /// How many free bytes lie between the slot directory and the cells.
    pub fn free_space(&self) -> (r: Result<u32, PageError>)
        requires
            self.wf(),
        ensures
            r is Ok,
            (r->Ok_0) as int == T::spec_row_size() * T::spec_rows_per_page()
                - self.spec_slot_count() * (T::spec_row_size() + 4),
    {
        proof {
            T::schema_bounds();
            lemma_wf_bounds(T::spec_row_size(), T::spec_rows_per_page(), self.spec_slot_count());
        }
        let h = match self.access_header() {
            Ok(h) => h,
            Err(e) => {
                return Err(e);
            },
        };
        Ok(h.free_space())
    }

    /// Inserts one record: fills the next slot and packs its cell at the end
    /// of free space, or reports `NoSpace` on a full page, leaving the page
    /// untouched.  On success the new row's slot index is returned.
    #[verifier::rlimit(50)]
    pub fn insert_row(&mut self, object: &T) -> (r: Result<u32, PageError>)
        requires
            old(self).wf(),
            object.inv(),
        ensures
            final(self).wf(),
            old(self).spec_slot_count() < spec_max_rows(
                T::spec_row_size(),
                T::spec_rows_per_page(),
            ) ==> (r matches Ok(n) && n as int == old(self).spec_slot_count()
                && final(self).spec_slot_count() == old(self).spec_slot_count() + 1
                && final(self).cells() == old(self).cells().push(object.spec_encoded())
                && final(self).data@ == page_after_insert(
                old(self).data@,
                T::spec_row_size(),
                old(self).spec_slot_count(),
                object.spec_encoded(),
            )),
            old(self).spec_slot_count() >= spec_max_rows(
                T::spec_row_size(),
                T::spec_rows_per_page(),
            ) ==> (r == Err::<u32, PageError>(PageError::NoSpace)
                && *final(self) == *old(self)),
    {
        let ghost s = T::spec_row_size();
        let ghost rpp = T::spec_rows_per_page();
        let ghost k = old(self).spec_slot_count();
        let ghost m = spec_max_rows(s, rpp);
        let ghost len = old(self).data@.len() as int;
        proof {
            T::schema_bounds();
            lemma_operand_bounds(s, rpp);
            lemma_max_rows_cap(s, rpp);
            lemma_wf_bounds(s, rpp, k);
            lemma_below_capacity(s, rpp, k);
            assert((k + 1) * (s + 4) == k * (s + 4) + (s + 4)) by (nonlinear_arith);
            assert((k + 1) * s == k * s + s) by (nonlinear_arith);
        }
        let row_sz = T::row_size();
        let data_len = self.data.len();
        let slot_count = read_u32_at(&self.data, 4);
        let free_start = read_u32_at(&self.data, 8);
        let free_end = read_u32_at(&self.data, 12);
        let free_space = free_end - free_start;
        if free_space <= row_sz as u32 {
            // A page below capacity still has a whole row and slot free.
            assert(k >= m);
            return Err(PageError::NoSpace);
        }
        let aligned_start = free_end - row_sz as u32;
        if aligned_start < free_start + 4 {
            assert(k >= m);
            return Err(PageError::NoSpace);
        }
        assert(k < m);
        assert(16 + 4 * k + 4 <= aligned_start as int);
        assert(aligned_start as int == len - (k + 1) * s);
        let slot_id = PAGE_HEADER_SZ as usize + 4 * (slot_count as usize);
        write_u32_at(&mut self.data, 4, slot_count + 1);
        let ghost d1 = self.data@;
        write_u32_at(&mut self.data, 8, free_start + 4);
        let ghost d2 = self.data@;
        write_u32_at(&mut self.data, 12, aligned_start);
        let ghost d3 = self.data@;
        write_u32_at(&mut self.data, slot_id, aligned_start);
        let ghost d4 = self.data@;
        let enc = object.to_bytes();
        proof {
            object.lemma_encoded_len();
        }
        write_bytes(&mut self.data, aligned_start as usize, &enc);
        proof {
            vstd::bytes::lemma_auto_spec_u32_to_from_le_bytes();
            let d = self.data@;
            let old_d = old(self).data@;
            let a = aligned_start as int;
            assert(d.len() == len);
            // The header counters were rewritten; nothing later touched them.
            assert(d.subrange(4, 8) =~= vstd::bytes::spec_u32_to_le_bytes(
                (slot_count + 1) as u32,
            ));
            assert(d.subrange(8, 12) =~= vstd::bytes::spec_u32_to_le_bytes(
                (free_start + 4) as u32,
            ));
            assert(d.subrange(12, 16) =~= vstd::bytes::spec_u32_to_le_bytes(aligned_start));
            assert(page_slot_count(d) == k + 1);
            assert(read_u32(d, 8) as int == 16 + 4 * (k + 1));
            assert(read_u32(d, 12) as int == len - (k + 1) * s);
            // Older slot directory entries lie before the new one and after
            // the header, so none of the writes touched them.
            assert forall|i: int| 0 <= i < k implies #[trigger] read_u32(d, 16 + 4 * i) as int
                == len - (i + 1) * s by {
                assert((i + 1) * s <= k * s) by (nonlinear_arith)
                    requires
                        i + 1 <= k,
                        s >= 1,
                ;
                assert(read_u32(old_d, 16 + 4 * i) as int == len - (i + 1) * s);
                assert(d.subrange(16 + 4 * i, 16 + 4 * i + 4) =~= old_d.subrange(
                    16 + 4 * i,
                    16 + 4 * i + 4,
                ));
                assert(read_u32(d, 16 + 4 * i) == read_u32(old_d, 16 + 4 * i));
            }
            // The new slot entry names the new cell.
            assert(d.subrange(16 + 4 * k, 16 + 4 * k + 4) =~= vstd::bytes::spec_u32_to_le_bytes(
                aligned_start,
            ));
            assert(read_u32(d, 16 + 4 * k) as int == len - (k + 1) * s);
            assert(self.wf());
            // Old cells lie at or after the old free end; none were touched.
            assert forall|i: int| 0 <= i < k implies page_cell(d, s, i) == page_cell(
                old_d,
                s,
                i,
            ) by {
                assert((i + 1) * s <= k * s && i * s >= 0 && (i + 1) * s == i * s + s)
                    by (nonlinear_arith)
                    requires
                        0 <= i,
                        i + 1 <= k,
                        s >= 1,
                ;
                assert(page_cell(d, s, i) =~= page_cell(old_d, s, i));
            }
            // The new cell holds exactly the encoded record.
            assert(page_cell(d, s, k) =~= enc@);
            assert(self.cells() =~~= old(self).cells().push(object.spec_encoded()));
            // Byte for byte, the page is the old page with exactly the three
            // counters, the new slot entry and the new cell rewritten.
            assert(d =~= page_after_insert(old_d, s, k, enc@));
        }
        Ok(slot_count)
    }

    /// Reads the record at a slot: `Some` for every filled slot, `None`
    /// past the filled slots.
    pub fn access_row(&self, page_row_n: usize) -> (r: Result<Option<T>, PageError>)
        requires
            self.wf(),
        ensures
            page_row_n < self.spec_slot_count() ==> (r matches Ok(Some(t)) && t@
                == T::spec_decoded(self.cells()[page_row_n as int]) && t.inv()),
            page_row_n >= self.spec_slot_count() ==> (r matches Ok(x) && x is None),
    {
        let ghost s = T::spec_row_size();
        let ghost rpp = T::spec_rows_per_page();
        let ghost k = self.spec_slot_count();
        let ghost len = self.data@.len() as int;
        proof {
            T::schema_bounds();
            lemma_operand_bounds(s, rpp);
            lemma_wf_bounds(s, rpp, k);
        }
        let slot_count = read_u32_at(&self.data, 4);
        if page_row_n >= slot_count as usize {
            return Ok(None);
        }
        let ghost n = page_row_n as int;
        proof {
            assert((n + 1) * s <= k * s && 0 <= n * s && (n + 1) * s == n * s + s)
                by (nonlinear_arith)
                requires
                    0 <= n,
                    n + 1 <= k,
                    s >= 1,
            ;
        }
        let off = read_u32_at(&self.data, PAGE_HEADER_SZ as usize + 4 * page_row_n) as usize;
        let free_end = read_u32_at(&self.data, 12);
        let row_sz = T::row_size();
        let data_len = self.data.len();
        assert(off >= free_end as usize && off + row_sz <= data_len);
        if off < free_end as usize || off + row_sz > data_len {
            // Well-formedness rules this out: every directory entry names a
            // packed cell; the check guards against a corrupted image.
            return Err(PageError::RowNotFound);
        }
        let cell = slice_subrange(self.data.as_slice(), off, off + row_sz);
        let t = T::from_bytes(cell);
        proof {
            assert(cell@ =~= page_cell(self.data@, s, n));
        }
        Ok(Some(t))
    }

    /// Overwrites the cell of slot `page_row_n` with one row of bytes.
    fn overwrite_cell(&mut self, page_row_n: usize, bytes: &Vec<u8>)
        requires
            old(self).wf(),
            page_row_n < old(self).spec_slot_count(),
            bytes@.len() == T::spec_row_size(),
        ensures
            final(self).wf(),
            final(self).spec_slot_count() == old(self).spec_slot_count(),
            final(self).cells() == old(self).cells().update(page_row_n as int, bytes@),
            final(self).data@ == page_after_write(
                old(self).data@,
                T::spec_row_size(),
                page_row_n as int,
                bytes@,
            ),
    {
        let ghost s = T::spec_row_size();
        let ghost rpp = T::spec_rows_per_page();
        let ghost k = old(self).spec_slot_count();
        let ghost len = old(self).data@.len() as int;
        let ghost n = page_row_n as int;
        proof {
            T::schema_bounds();
            lemma_operand_bounds(s, rpp);
            lemma_wf_bounds(s, rpp, k);
            assert((n + 1) * s <= k * s && 0 <= n * s && (n + 1) * s == n * s + s)
                by (nonlinear_arith)
                requires
                    0 <= n,
                    n + 1 <= k,
                    s >= 1,
            ;
        }
        let off = read_u32_at(&self.data, PAGE_HEADER_SZ as usize + 4 * page_row_n) as usize;
        assert(off as int == len - (n + 1) * s);
        write_bytes(&mut self.data, off, bytes);
        proof {
            let d = self.data@;
            let old_d = old(self).data@;
            // The header and slot directory lie below the cells.
            assert(d.subrange(4, 8) =~= old_d.subrange(4, 8));
            assert(d.subrange(8, 12) =~= old_d.subrange(8, 12));
            assert(d.subrange(12, 16) =~= old_d.subrange(12, 16));
            assert forall|i: int| 0 <= i < k implies #[trigger] read_u32(d, 16 + 4 * i) as int
                == len - (i + 1) * s by {
                assert(read_u32(old_d, 16 + 4 * i) as int == len - (i + 1) * s);
                assert(d.subrange(16 + 4 * i, 16 + 4 * i + 4) =~= old_d.subrange(
                    16 + 4 * i,
                    16 + 4 * i + 4,
                ));
                assert(read_u32(d, 16 + 4 * i) == read_u32(old_d, 16 + 4 * i));
            }
            assert(self.wf());
            // Every other cell is disjoint from the overwritten one.
            assert forall|i: int| 0 <= i < k && i != n implies page_cell(d, s, i) == page_cell(
                old_d,
                s,
                i,
            ) by {
                assert((i + 1) * s <= k * s && 0 <= i * s && (i + 1) * s == i * s + s)
                    by (nonlinear_arith)
                    requires
                        0 <= i,
                        i + 1 <= k,
                        s >= 1,
                ;
                if i < n {
                    assert((i + 1) * s <= n * s) by (nonlinear_arith)
                        requires
                            i + 1 <= n,
                            s >= 1,
                    ;
                } else {
                    assert((n + 1) * s <= i * s) by (nonlinear_arith)
                        requires
                            n + 1 <= i,
                            s >= 1,
                    ;
                }
                assert(page_cell(d, s, i) =~= page_cell(old_d, s, i));
            }
            assert(page_cell(d, s, n) =~= bytes@);
            assert(self.cells() =~~= old(self).cells().update(n, bytes@));
            assert(d =~= page_after_write(old_d, s, n, bytes@));
        }
    }

    /// Rewrites the cell of a filled slot in place with the encoding of
    /// `value`; slots past the filled ones are `RowNotFound`.
    pub fn write_row(&mut self, page_row_n: usize, value: &T) -> (r: Result<(), PageError>)
        requires
            old(self).wf(),
            value.inv(),
        ensures
            final(self).wf(),
            page_row_n < old(self).spec_slot_count() ==> (r == Ok::<(), PageError>(())
                && final(self).spec_slot_count() == old(self).spec_slot_count()
                && final(self).cells() == old(self).cells().update(
                page_row_n as int,
                value.spec_encoded(),
            ) && final(self).data@ == page_after_write(
                old(self).data@,
                T::spec_row_size(),
                page_row_n as int,
                value.spec_encoded(),
            )),
            page_row_n >= old(self).spec_slot_count() ==> (r == Err::<(), PageError>(
                PageError::RowNotFound,
            ) && final(self).data@ == old(self).data@),
    {
        proof {
            T::schema_bounds();
        }
        let slot_count = read_u32_at(&self.data, 4);
        if page_row_n >= slot_count as usize {
            return Err(PageError::RowNotFound);
        }
        let enc = value.to_bytes();
        proof {
            value.lemma_encoded_len();
        }
        self.overwrite_cell(page_row_n, &enc);
        Ok(())
    }

    /// Logically deletes a row: overwrites its cell with the schema's
    /// sentinel when that sentinel is non-empty, and leaves the slot
    /// directory and slot count untouched either way.
    pub fn set_row_deleted(&mut self, page_row_n: usize) -> (r: Result<(), PageError>)
        requires
            old(self).wf(),
        ensures
            final(self).wf(),
            page_row_n >= old(self).spec_slot_count() ==> (r == Err::<(), PageError>(
                PageError::RowIdOutOfBounds,
            ) && final(self).data@ == old(self).data@),
            page_row_n < old(self).spec_slot_count() ==> (r == Ok::<(), PageError>(())
                && final(self).spec_slot_count() == old(self).spec_slot_count()),
            page_row_n < old(self).spec_slot_count() && T::spec_deleted(page_row_n as int).len()
                == 0 ==> final(self).data@ == old(self).data@,
            page_row_n < old(self).spec_slot_count() && T::spec_deleted(page_row_n as int).len()
                != 0 ==> (final(self).cells() == old(self).cells().update(
                page_row_n as int,
                T::spec_deleted(page_row_n as int),
            ) && final(self).data@ == page_after_write(
                old(self).data@,
                T::spec_row_size(),
                page_row_n as int,
                T::spec_deleted(page_row_n as int),
            )),
    {
        proof {
            T::schema_bounds();
        }
        let slot_count = read_u32_at(&self.data, 4);
        if page_row_n >= slot_count as usize {
            return Err(PageError::RowIdOutOfBounds);
        }
        let sentinel = T::deleted_row(page_row_n);
        proof {
            T::lemma_deleted_len(page_row_n as int);
        }
        if sentinel.len() == 0 {
            return Ok(());
        }
        self.overwrite_cell(page_row_n, &sentinel);
        Ok(())
    }

    /// The cost of one row in the page: its cell plus a four-byte slot.
    pub fn row_sz() -> (r: usize)
        ensures
            r as int == T::spec_row_size() + 4,
    {
        proof {
            T::schema_bounds();
            lemma_mul_inequality(1, T::spec_rows_per_page(), T::spec_row_size());
            vstd::arithmetic::mul::lemma_mul_is_commutative(
                T::spec_rows_per_page(),
                T::spec_row_size(),
            );
        }
        T::row_size() + 4
    }

    /// How many rows fit in one page.
    pub fn max_rows_per_page() -> (r: usize)
        ensures
            r as int == spec_max_rows(T::spec_row_size(), T::spec_rows_per_page()),
    {
        proof {
            T::schema_bounds();
        }
        let psz = page_sz::<T>() as usize;
        (psz - PAGE_HEADER_SZ as usize) / Self::row_sz()
    }
}

} // verus!
