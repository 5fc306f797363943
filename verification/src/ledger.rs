//! The ledger store: a paged byte image holding a dense sequence of records.
//!
//! The image is a [`LedgerHeader`] followed by `num_pages` slotted pages.
//! Every page but the tail is full; row id `r` lives in page `r / m` at slot
//! `r % m`, where `m` is the schema's row capacity per page.  [`bytes`]
//! renders the store into its on-disk image and [`attach`] recovers a store
//! from one, so a ledger survives a close and re-open unchanged.
//!
//! [`bytes`]: DataLedgerStore::bytes
//! [`attach`]: DataLedgerStore::attach

use crate::codec::{push_bytes, read_bytes, read_u32};
use crate::header::{LedgerDescription, LedgerHeader, LedgerName};
use crate::page::{
    page_cell, page_slot_count, page_sz, page_wf, spec_max_rows, spec_page_size, PageSchema,
    SlottedPage,
};
use crate::utils::{DatastoreError, PageError};
use vstd::arithmetic::div_mod::{
    lemma_fundamental_div_mod, lemma_fundamental_div_mod_converse, lemma_mod_bound,
    lemma_multiply_divide_lt,
};
use vstd::arithmetic::mul::lemma_mul_inequality;
use vstd::prelude::*;
use vstd::slice::slice_to_vec;

verus! {

/// Size in bytes of a page header at the start of every page.
pub const PAGE_HEADER_SZ: u32 = 16;

/// Size in bytes of the ledger header at the start of the file image.
pub const LEDGER_HEADER_SZ: u32 = 68;

/// The concatenation of a sequence of byte chunks.
pub open spec fn concat_bytes(chunks: Seq<Seq<u8>>) -> Seq<u8>
    decreases chunks.len(),
{
    if chunks.len() == 0 {
        Seq::<u8>::empty()
    } else {
        concat_bytes(chunks.drop_last()) + chunks.last()
    }
}

/// Concatenating `n` chunks of `w` bytes each yields `n * w` bytes.
pub proof fn lemma_concat_bytes_len(chunks: Seq<Seq<u8>>, w: int)
    requires
        forall|i: int| 0 <= i < chunks.len() ==> (#[trigger] chunks[i]).len() == w,
    ensures
        concat_bytes(chunks).len() == chunks.len() * w,
    decreases chunks.len(),
{
    if chunks.len() == 0 {
    } else {
        lemma_concat_bytes_len(chunks.drop_last(), w);
        assert((chunks.len() - 1) * w + w == chunks.len() * w) by (nonlinear_arith);
    }
}

/// Each chunk of a concatenation of fixed-width chunks is recovered by its
/// subrange.
pub proof fn lemma_concat_bytes_index(chunks: Seq<Seq<u8>>, w: int, p: int)
    requires
        1 <= w,
        forall|i: int| 0 <= i < chunks.len() ==> (#[trigger] chunks[i]).len() == w,
        0 <= p < chunks.len(),
    ensures
        concat_bytes(chunks).subrange(p * w, (p + 1) * w) == chunks[p],
    decreases chunks.len(),
{
    let n = chunks.len() as int;
    lemma_concat_bytes_len(chunks, w);
    lemma_concat_bytes_len(chunks.drop_last(), w);
    if p == n - 1 {
        assert((n - 1) * w + w == n * w) by (nonlinear_arith);
        assert((p + 1) * w == p * w + w) by (nonlinear_arith);
        assert(concat_bytes(chunks).subrange(p * w, (p + 1) * w) =~= chunks[p]);
    } else {
        lemma_concat_bytes_index(chunks.drop_last(), w, p);
        assert((p + 1) * w <= (n - 1) * w) by (nonlinear_arith)
            requires
                p + 1 <= n - 1,
                1 <= w,
        ;
        assert(0 <= p * w) by (nonlinear_arith)
            requires
                0 <= p,
                1 <= w,
        ;
        assert(chunks[n - 1].len() == w);
        assert(concat_bytes(chunks) == concat_bytes(chunks.drop_last()) + chunks.last());
        assert(concat_bytes(chunks).len() == (n - 1) * w + w);
        assert((p + 1) * w == p * w + w) by (nonlinear_arith);
        assert(concat_bytes(chunks).subrange(p * w, (p + 1) * w) =~= concat_bytes(
            chunks.drop_last(),
        ).subrange(p * w, (p + 1) * w));
    }
}

/// The bytes of page `p` inside a ledger image.
pub open spec fn image_page(d: Seq<u8>, s: int, rpp: int, p: int) -> Seq<u8> {
    d.subrange(68 + p * spec_page_size(s, rpp), 68 + (p + 1) * spec_page_size(s, rpp))
}

/// Well-formedness of a whole ledger image: a header whose counters fit the
/// image, every page well-formed, every page but the tail full, and the tail
/// non-empty unless the ledger holds a single page.
pub open spec fn image_wf(d: Seq<u8>, s: int, rpp: int) -> bool {
    let np = read_u32(d, 42) as int;
    let m = spec_max_rows(s, rpp);
    &&& 1 <= np
    &&& d.len() == 68 + np * spec_page_size(s, rpp)
    &&& read_u32(d, 50) as int == np - 1
    &&& np * m <= u32::MAX
    &&& forall|p: int| 0 <= p < np ==> page_wf(#[trigger] image_page(d, s, rpp, p), s, rpp)
    &&& forall|p: int|
        0 <= p < np - 1 ==> page_slot_count(#[trigger] image_page(d, s, rpp, p)) == m
    &&& (np == 1 || 1 <= page_slot_count(image_page(d, s, rpp, np - 1)))
    &&& d.subrange(54, 68) == Seq::new(14, |i: int| 0u8)
}

/// How many rows a well-formed image holds.
pub open spec fn image_num_rows(d: Seq<u8>, s: int, rpp: int) -> int {
    let np = read_u32(d, 42) as int;
    (np - 1) * spec_max_rows(s, rpp) + page_slot_count(image_page(d, s, rpp, np - 1))
}

/// The row cells a well-formed image holds, in row-id order.
pub open spec fn image_rows(d: Seq<u8>, s: int, rpp: int) -> Seq<Seq<u8>> {
    let m = spec_max_rows(s, rpp);
    Seq::new(
        image_num_rows(d, s, rpp) as nat,
        |rid: int| page_cell(image_page(d, s, rpp, rid / m), s, rid % m),
    )
}

/// Where a row id lives: in a store whose pages before the tail are full at
/// `m` rows and whose tail holds `k`, row `rid` sits in page `rid / m` at
/// slot `rid % m`, and that slot is filled.
pub proof fn lemma_rid_location(np: int, m: int, k: int, rid: int)
    requires
        1 <= m,
        1 <= np,
        0 <= k <= m,
        0 <= rid < (np - 1) * m + k,
    ensures
        0 <= rid / m < np,
        0 <= rid % m < m,
        rid == (rid / m) * m + rid % m,
        rid / m == np - 1 ==> rid % m < k,
{
    lemma_fundamental_div_mod(rid, m);
    lemma_mod_bound(rid, m);
    assert((np - 1) * m + k <= np * m) by (nonlinear_arith)
        requires
            k <= m,
    ;
    assert(np * m == m * np) by (nonlinear_arith);
    lemma_multiply_divide_lt(rid, m, np);
    vstd::arithmetic::div_mod::lemma_div_pos_is_pos(rid, m);
    assert(m * (rid / m) == (rid / m) * m) by (nonlinear_arith);
    if rid / m == np - 1 {
        assert(rid % m == rid - (np - 1) * m);
    }
}

/// A row id at or past the row count names no filled slot: its page is the
/// tail or beyond, and in the tail its slot is past the filled ones.
pub proof fn lemma_rid_out_of_range(np: int, m: int, k: int, rid: int)
    requires
        1 <= m,
        1 <= np,
        0 <= k <= m,
        rid >= (np - 1) * m + k,
        0 <= rid,
    ensures
        rid / m >= np - 1,
        rid / m == np - 1 ==> rid % m >= k,
{
    lemma_fundamental_div_mod(rid, m);
    lemma_mod_bound(rid, m);
    assert(m * (rid / m) == (rid / m) * m) by (nonlinear_arith);
    if rid / m < np - 1 {
        assert((rid / m + 1) * m <= (np - 1) * m) by (nonlinear_arith)
            requires
                rid / m + 1 <= np - 1,
                1 <= m,
        ;
        assert((rid / m + 1) * m == (rid / m) * m + m) by (nonlinear_arith);
        assert(false);
    }
    if rid / m == np - 1 {
        assert(rid % m == rid - (np - 1) * m);
    }
}

/// Names the page and slot a row id resolves to.
#[derive(Debug)]
pub struct RowQuery<T> {
    /// The page holding the row.
    pub page_id: u32,
    /// The slot within that page.
    pub page_row_n: u32,
    /// Carries the record type whose capacity fixes the mapping.
    pub row_type: core::marker::PhantomData<T>,
}

impl<T: PageSchema> RowQuery<T> {
    /// The row id of a page and slot: pages are `m` rows wide.
    pub fn to_row_id(page_id: u32, row_n: u32) -> (r: u32)
        requires
            page_id * spec_max_rows(T::spec_row_size(), T::spec_rows_per_page()) + row_n
                <= u32::MAX,
        ensures
            r as int == page_id * spec_max_rows(T::spec_row_size(), T::spec_rows_per_page())
                + row_n,
    {
        proof {
            T::schema_bounds();
            crate::page::lemma_operand_bounds(T::spec_row_size(), T::spec_rows_per_page());
            crate::page::lemma_max_rows_cap(T::spec_row_size(), T::spec_rows_per_page());
            vstd::arithmetic::mul::lemma_mul_nonnegative(
                page_id as int,
                spec_max_rows(T::spec_row_size(), T::spec_rows_per_page()),
            );
        }
        let m = SlottedPage::<T>::max_rows_per_page();
        page_id * (m as u32) + row_n
    }

    /// Splits a row id into its page and slot.
    pub fn from_row_id(row_id: u32) -> (r: RowQuery<T>)
        ensures
            r.page_id as int == row_id as int / spec_max_rows(
                T::spec_row_size(),
                T::spec_rows_per_page(),
            ),
            r.page_row_n as int == row_id as int % spec_max_rows(
                T::spec_row_size(),
                T::spec_rows_per_page(),
            ),
    {
        proof {
            T::schema_bounds();
            crate::page::lemma_max_rows_cap(T::spec_row_size(), T::spec_rows_per_page());
        }
        let m = SlottedPage::<T>::max_rows_per_page() as u32;
        let page_id = row_id / m;
        let page_row_n = row_id % m;
        RowQuery { page_id, page_row_n, row_type: core::marker::PhantomData }
    }
}

/// Reading a row back recovers the record whose encoding was inserted:
/// decoding its stored cell yields that record's view, field for field.
pub proof fn lemma_access_recovers_insert<T: PageSchema>(
    l: &DataLedgerStore<T>,
    rid: int,
    v: T,
)
    requires
        l.wf(),
        0 <= rid < l.rows().len(),
        l.rows()[rid] == v.spec_encoded(),
        v.inv(),
    ensures
        T::spec_decoded(l.rows()[rid]) == v@,
{
    v.lemma_codec_round_trip();
}

/// Splitting a row id recovers the page and slot it was made from, for every
/// slot below the per-page capacity.
pub proof fn lemma_row_id_round_trip(pid: int, slot: int, m: int)
    requires
        1 <= m,
        0 <= pid,
        0 <= slot < m,
    ensures
        (pid * m + slot) / m == pid,
        (pid * m + slot) % m == slot,
{
    lemma_fundamental_div_mod_converse(pid * m + slot, m, pid, slot);
}

/// The ledger store: the parsed ledger header and the allocated pages.
#[derive(Debug)]
pub struct DataLedgerStore<T> {
    /// The ledger header; its counters always match the pages.
    pub header: LedgerHeader,
    /// The allocated pages, in page-id order.
    pub pages: Vec<SlottedPage<T>>,
}

impl<T: PageSchema> DataLedgerStore<T> {
    /// How many pages the store has allocated.
    pub open spec fn spec_num_pages(&self) -> int {
        self.header.spec_num_pages() as int
    }

    /// How many rows fit in one page.
    pub open spec fn spec_max_rows_per_page() -> int {
        spec_max_rows(T::spec_row_size(), T::spec_rows_per_page())
    }

    /// How many rows the tail page holds.
    pub open spec fn spec_tail_count(&self) -> int {
        self.pages@[self.spec_num_pages() - 1].spec_slot_count()
    }

    /// The structural part of well-formedness: the header counters match the
    /// pages, the cursor names an allocated page, every page is well-formed,
    /// and every page but the tail is full.
    pub open spec fn wf_core(&self) -> bool {
        let np = self.spec_num_pages();
        let m = Self::spec_max_rows_per_page();
        &&& self.header.inv()
        &&& 1 <= np
        &&& self.pages@.len() == np
        &&& (self.header.spec_page_cursor() as int) < np
        &&& np * m <= u32::MAX
        &&& forall|p: int| 0 <= p < np ==> (#[trigger] self.pages@[p]).wf()
        &&& forall|p: int| 0 <= p < np - 1 ==> (#[trigger] self.pages@[p]).spec_slot_count() == m
    }

    /// Well-formedness of a resting store: structurally sound, the cursor on
    /// the tail page, and the tail non-empty unless the ledger holds a single
    /// page.  Between allocating a page and bumping the cursor onto it (the
    /// two halves of a rollover) only [`wf_core`] holds.
    ///
    /// [`wf_core`]: DataLedgerStore::wf_core
    pub open spec fn wf(&self) -> bool {
        &&& self.wf_core()
        &&& self.header.spec_page_cursor() as int == self.spec_num_pages() - 1
        &&& (self.spec_num_pages() == 1 || 1 <= self.spec_tail_count())
    }

    /// How many rows the store holds.
    pub open spec fn spec_num_rows(&self) -> int {
        (self.spec_num_pages() - 1) * Self::spec_max_rows_per_page() + self.spec_tail_count()
    }

    /// The row cells of the store, in row-id order: row `r` lives in page
    /// `r / m` at slot `r % m`.
    pub open spec fn rows(&self) -> Seq<Seq<u8>> {
        let m = Self::spec_max_rows_per_page();
        Seq::new(
            self.spec_num_rows() as nat,
            |rid: int| self.pages@[rid / m].cells()[rid % m],
        )
    }

    /// The exact on-disk image of the store.
    pub open spec fn spec_image(&self) -> Seq<u8> {
        self.header.spec_serialized() + concat_bytes(
            self.pages@.map_values(|p: SlottedPage<T>| p.data@),
        )
    }

    /// A ledger survives a close and re-open: the image a well-formed store
    /// renders is itself well-formed, and it carries exactly the store's
    /// pages, rows, and row count, so attaching it yields a store with the
    /// same contents at every row id.
    pub proof fn lemma_reopen(&self)
        requires
            self.wf(),
        ensures
            image_wf(self.spec_image(), T::spec_row_size(), T::spec_rows_per_page()),
            read_u32(self.spec_image(), 42) as int == self.spec_num_pages(),
            image_num_rows(self.spec_image(), T::spec_row_size(), T::spec_rows_per_page())
                == self.rows().len(),
            image_rows(self.spec_image(), T::spec_row_size(), T::spec_rows_per_page())
                == self.rows(),
    {
        let s = T::spec_row_size();
        let rpp = T::spec_rows_per_page();
        let psz = spec_page_size(s, rpp);
        let m = spec_max_rows(s, rpp);
        let np = self.spec_num_pages();
        let img = self.spec_image();
        T::schema_bounds();
        crate::page::lemma_operand_bounds(s, rpp);
        crate::page::lemma_max_rows_cap(s, rpp);
        crate::header::lemma_ledger_header_codec(self.header);
        let hdr = self.header.spec_serialized();
        let chunks = self.pages@.map_values(|p: SlottedPage<T>| p.data@);
        assert(forall|q: int| 0 <= q < chunks.len() ==> (#[trigger] chunks[q]).len() == psz);
        lemma_concat_bytes_len(chunks, psz);
        lemma_mul_inequality(1, np, psz);
        assert(img.subrange(42, 46) =~= hdr.subrange(42, 46));
        assert(img.subrange(50, 54) =~= hdr.subrange(50, 54));
        assert(read_u32(img, 42) == self.header.spec_num_pages());
        assert(read_u32(img, 50) == self.header.spec_page_cursor());
        assert(img.subrange(54, 68) =~= Seq::new(14, |i: int| 0u8));
        // Each page of the image is the corresponding stored page.
        assert forall|p: int| 0 <= p < np implies #[trigger] image_page(img, s, rpp, p)
            == self.pages@[p].data@ by {
            lemma_concat_bytes_index(chunks, psz, p);
            lemma_mul_inequality(p + 1, np, psz);
            assert((p + 1) * psz == p * psz + psz) by (nonlinear_arith);
            vstd::arithmetic::mul::lemma_mul_nonnegative(p, psz);
            assert(image_page(img, s, rpp, p) =~= concat_bytes(chunks).subrange(
                p * psz,
                (p + 1) * psz,
            ));
        }
        assert(image_wf(img, s, rpp));
        let tail = self.spec_tail_count();
        assert(page_slot_count(image_page(img, s, rpp, np - 1)) == tail);
        assert(image_num_rows(img, s, rpp) == self.spec_num_rows());
        assert forall|rid: int| 0 <= rid < self.spec_num_rows() implies image_rows(
            img,
            s,
            rpp,
        )[rid] == self.rows()[rid] by {
            lemma_rid_location(np, m, tail, rid);
            assert(image_page(img, s, rpp, rid / m) == self.pages@[rid / m].data@);
        }
        assert(image_rows(img, s, rpp) =~~= self.rows());
    }

    /// With at least one row stored, the page count is exactly the ceiling
    /// of the row count over the per-page capacity, and the tail page holds
    /// the remainder of the division, or a full page when the capacity
    /// divides the count.
    pub proof fn lemma_page_count(&self)
        requires
            self.wf(),
            1 <= self.spec_num_rows(),
        ensures
            self.spec_num_pages() == (self.spec_num_rows() + Self::spec_max_rows_per_page() - 1)
                / Self::spec_max_rows_per_page(),
            self.spec_tail_count() == (if self.spec_num_rows() % Self::spec_max_rows_per_page()
                == 0 {
                Self::spec_max_rows_per_page()
            } else {
                self.spec_num_rows() % Self::spec_max_rows_per_page()
            }),
    {
        let s = T::spec_row_size();
        let rpp = T::spec_rows_per_page();
        let m = Self::spec_max_rows_per_page();
        let np = self.spec_num_pages();
        let k = self.spec_tail_count();
        let n = self.spec_num_rows();
        T::schema_bounds();
        crate::page::lemma_max_rows_cap(s, rpp);
        assert(1 <= k) by {
            if np == 1 {
                assert((np - 1) * m == 0) by (nonlinear_arith)
                    requires
                        np == 1,
                ;
            }
        }
        assert(n + m - 1 == np * m + (k - 1)) by (nonlinear_arith)
            requires
                n == (np - 1) * m + k,
        ;
        lemma_fundamental_div_mod_converse(n + m - 1, m, np, k - 1);
        if k == m {
            assert(n == np * m + 0) by (nonlinear_arith)
                requires
                    n == (np - 1) * m + k,
                    k == m,
            ;
            lemma_fundamental_div_mod_converse(n, m, np, 0);
        } else {
            lemma_fundamental_div_mod_converse(n, m, np - 1, k);
        }
    }

    /// A fresh single-page ledger with no rows.
    pub fn create(ledger_name: LedgerName, ledger_description: LedgerDescription) -> (r: Self)
        requires
            ledger_name.inv(),
            ledger_description.inv(),
        ensures
            r.wf(),
            r.spec_num_rows() == 0,
            r.rows() == Seq::<Seq<u8>>::empty(),
            r.spec_num_pages() == 1,
            r.header.spec_name() == ledger_name@,
            r.header.spec_description() == ledger_description@,
            r.header.spec_rows_per_page() as int == T::spec_rows_per_page(),
            r.header.spec_page_cursor() == 0,
    {
        proof {
            T::schema_bounds();
            crate::page::lemma_max_rows_cap(T::spec_row_size(), T::spec_rows_per_page());
            crate::page::lemma_operand_bounds(T::spec_row_size(), T::spec_rows_per_page());
        }
        let mut header = LedgerHeader::new(ledger_name, ledger_description, None);
        header.set_num_pages(1);
        let rpp = T::rows_per_page();
        header.set_rows_per_page(rpp as u32);
        let mut pages: Vec<SlottedPage<T>> = Vec::new();
        pages.push(SlottedPage::new());
        let r = DataLedgerStore { header, pages };
        proof {
            assert(r.pages@[0].spec_slot_count() == 0);
            assert(r.spec_num_pages() - 1 == 0);
            assert((r.spec_num_pages() - 1) * Self::spec_max_rows_per_page() == 0)
                by (nonlinear_arith)
                requires
                    r.spec_num_pages() - 1 == 0,
            ;
            assert(r.spec_num_rows() == 0);
            assert(r.rows() =~= Seq::<Seq<u8>>::empty());
        }
        r
    }

    /// Recovers a store from an on-disk image: `Ok` exactly on well-formed
    /// images, which the store then represents byte for byte.
    pub fn attach(data: Vec<u8>) -> (r: Result<Self, DatastoreError>)
        ensures
            r is Ok <==> image_wf(data@, T::spec_row_size(), T::spec_rows_per_page()),
            r is Ok ==> (r->Ok_0).wf(),
            r is Ok ==> (r->Ok_0).spec_image() == data@,
            r is Ok ==> (r->Ok_0).rows() == image_rows(
                data@,
                T::spec_row_size(),
                T::spec_rows_per_page(),
            ),
    {
        let ghost s = T::spec_row_size();
        let ghost rpp = T::spec_rows_per_page();
        let ghost psz_g = spec_page_size(s, rpp);
        let ghost m_g = spec_max_rows(s, rpp);
        proof {
            T::schema_bounds();
            crate::page::lemma_operand_bounds(s, rpp);
            crate::page::lemma_max_rows_cap(s, rpp);
        }
        let psz32 = page_sz::<T>();
        let psz = psz32 as usize;
        if data.len() < 68 {
            proof {
                if image_wf(data@, s, rpp) {
                    let np = read_u32(data@, 42) as int;
                    lemma_mul_inequality(1, np, psz_g);
                    assert(false);
                }
            }
            return Err(DatastoreError::CorruptImage);
        }
        let header = match LedgerHeader::deserialize(
            vstd::slice::slice_subrange(data.as_slice(), 0, 68),
        ) {
            Ok(h) => h,
            Err(e) => {
                return Err(e);
            },
        };
        proof {
            let hs = data@.subrange(0, 68);
            assert(hs.subrange(42, 46) =~= data@.subrange(42, 46));
            assert(hs.subrange(50, 54) =~= data@.subrange(50, 54));
            assert(hs.subrange(1, 10) =~= data@.subrange(1, 10));
            assert(hs.subrange(10, 42) =~= data@.subrange(10, 42));
            assert(hs.subrange(46, 50) =~= data@.subrange(46, 50));
        }
        let np32 = header.num_pages();
        if np32 < 1 {
            return Err(DatastoreError::CorruptImage);
        }
        if header.page_cursor() != np32 - 1 {
            return Err(DatastoreError::CorruptImage);
        }
        proof {
            assert((np32 as u64) * (psz32 as u64) < 0x8000000000000000u64) by (nonlinear_arith)
                requires
                    np32 <= u32::MAX,
                    psz32 as int <= 0x7fffffff,
            ;
        }
        let need: u64 = 68u64 + (np32 as u64) * (psz32 as u64);
        if (data.len() as u64) != need {
            return Err(DatastoreError::CorruptImage);
        }
        let m = SlottedPage::<T>::max_rows_per_page();
        proof {
            assert((np32 as u64) * (m as u64) < 0x8000000000000000u64) by (nonlinear_arith)
                requires
                    np32 <= u32::MAX,
                    m as int <= 0x7fffffff,
            ;
        }
        let cap: u64 = (np32 as u64) * (m as u64);
        if cap > u32::MAX as u64 {
            return Err(DatastoreError::CorruptImage);
        }
        // The reserved tail of the ledger header must be zero.
        let mut z: usize = 0;
        while z < 14
            invariant
                z <= 14,
                data@.len() >= 68,
                forall|j: int| 0 <= j < z ==> #[trigger] data@[54 + j] == 0u8,
            decreases 14 - z,
        {
            if data[54 + z] != 0 {
                proof {
                    if image_wf(data@, s, rpp) {
                        assert(Seq::new(14, |t: int| 0u8)[z as int] == 0u8);
                        assert(data@.subrange(54, 68)[z as int] == data@[54 + z]);
                        assert(false);
                    }
                }
                return Err(DatastoreError::CorruptImage);
            }
            z = z + 1;
        }
        proof {
            assert forall|i: int| 0 <= i < 14 implies data@.subrange(54, 68)[i] == Seq::new(
                14,
                |t: int| 0u8,
            )[i] by {
                assert(data@[54 + i] == 0u8);
            }
            assert(data@.subrange(54, 68) =~= Seq::new(14, |i: int| 0u8));
        }
        let dlen = data.len();
        let np = np32 as usize;
        let mut pages: Vec<SlottedPage<T>> = Vec::new();
        let mut p: usize = 0;
        while p < np
            invariant
                p <= np,
                np == np32 as int,
                1 <= np32,
                psz == psz_g,
                psz32 as int == psz_g,
                m as int == m_g,
                m_g == spec_max_rows(s, rpp),
                psz_g == spec_page_size(s, rpp),
                s == T::spec_row_size(),
                rpp == T::spec_rows_per_page(),
                1 <= s,
                1 <= rpp,
                s + 4 <= s * rpp,
                psz_g <= 0x7fffffff,
                dlen == data@.len(),
                data@.len() == 68 + np * psz_g,
                image_wf(data@, s, rpp) ==> read_u32(data@, 42) as int == np,
                pages@.len() == p,
                forall|q: int|
                    0 <= q < p ==> (#[trigger] pages@[q]).data@ == image_page(data@, s, rpp, q),
                forall|q: int| 0 <= q < p ==> (#[trigger] pages@[q]).wf(),
                forall|q: int|
                    0 <= q < p && q < np - 1 ==> (#[trigger] pages@[q]).spec_slot_count() == m_g,
                np32 > 1 && p == np ==> 1 <= pages@[np - 1].spec_slot_count(),
            decreases np - p,
        {
            proof {
                assert((p + 1) * psz_g <= np * psz_g && 0 <= p * psz_g && (p + 1) * psz_g == p
                    * psz_g + psz_g) by (nonlinear_arith)
                    requires
                        0 <= p,
                        p + 1 <= np,
                        1 <= psz_g,
                ;
            }
            let off = 68 + p * psz;
            let chunk = read_bytes(&data, off, psz);
            proof {
                assert(chunk@ == image_page(data@, s, rpp, p as int));
            }
            let ghost this_page = image_page(data@, s, rpp, p as int);
            let page = match SlottedPage::<T>::from_image(chunk) {
                Ok(pg) => pg,
                Err(_) => {
                    proof {
                        if image_wf(data@, s, rpp) {
                            assert(page_wf(this_page, s, rpp));
                        }
                    }
                    return Err(DatastoreError::CorruptImage);
                },
            };
            let ph = match page.access_header() {
                Ok(h) => h,
                Err(e) => {
                    return Err(DatastoreError::PageError(e));
                },
            };
            if p + 1 < np {
                if ph.slot_count() as usize != m {
                    proof {
                        if image_wf(data@, s, rpp) {
                            assert(page_slot_count(this_page) == m_g);
                        }
                    }
                    return Err(DatastoreError::CorruptImage);
                }
            } else {
                if np > 1 && ph.slot_count() == 0 {
                    proof {
                        if image_wf(data@, s, rpp) {
                            assert(1 <= page_slot_count(
                                image_page(data@, s, rpp, np as int - 1),
                            ));
                        }
                    }
                    return Err(DatastoreError::CorruptImage);
                }
            }
            pages.push(page);
            p = p + 1;
        }
        let store = DataLedgerStore { header, pages };
        proof {
            assert(store.wf());
            // The rendered image equals the input byte for byte.
            crate::header::lemma_ledger_header_codec(store.header);
            vstd::bytes::lemma_auto_spec_u32_to_from_le_bytes();
            assert(store.header.spec_serialized() =~= data@.subrange(0, 68));
            let chunks = store.pages@.map_values(|pg: SlottedPage<T>| pg.data@);
            assert(forall|q: int|
                0 <= q < chunks.len() ==> (#[trigger] chunks[q]).len() == psz_g);
            lemma_concat_bytes_len(chunks, psz_g);
            assert forall|j: int| 0 <= j < np as int * psz_g implies #[trigger] concat_bytes(
                chunks,
            )[j] == data@[68 + j] by {
                let q = j / psz_g;
                lemma_fundamental_div_mod(j, psz_g);
                lemma_mod_bound(j, psz_g);
                vstd::arithmetic::div_mod::lemma_div_pos_is_pos(j, psz_g);
                assert(psz_g * q == q * psz_g) by (nonlinear_arith);
                assert(np as int * psz_g == psz_g * np as int) by (nonlinear_arith);
                lemma_multiply_divide_lt(j, psz_g, np as int);
                lemma_concat_bytes_index(chunks, psz_g, q);
                assert((q + 1) * psz_g == q * psz_g + psz_g) by (nonlinear_arith);
                let rem = j - q * psz_g;
                assert(0 <= rem < psz_g);
                lemma_mul_inequality(q + 1, np as int, psz_g);
                assert(chunks[q][rem] == concat_bytes(chunks).subrange(
                    q * psz_g,
                    (q + 1) * psz_g,
                )[rem]);
                assert(concat_bytes(chunks).subrange(q * psz_g, (q + 1) * psz_g)[rem]
                    == concat_bytes(chunks)[q * psz_g + rem]);
                assert(concat_bytes(chunks)[j] == chunks[q][rem]);
                assert(chunks[q] == image_page(data@, s, rpp, q));
            }
            assert(store.spec_image() =~= data@);
            // All well-formedness conjuncts of the image hold.
            let np_i = np as int;
            assert(read_u32(data@, 42) as int == np_i);
            assert forall|pp: int| 0 <= pp < np_i implies page_wf(
                #[trigger] image_page(data@, s, rpp, pp),
                s,
                rpp,
            ) by {
                assert(store.pages@[pp].wf());
                assert(store.pages@[pp].data@ == image_page(data@, s, rpp, pp));
            }
            assert forall|pp: int| 0 <= pp < np_i - 1 implies page_slot_count(
                #[trigger] image_page(data@, s, rpp, pp),
            ) == m_g by {
                assert(store.pages@[pp].spec_slot_count() == m_g);
                assert(store.pages@[pp].data@ == image_page(data@, s, rpp, pp));
            }
            if np_i > 1 {
                assert(store.pages@[np_i - 1].data@ == image_page(data@, s, rpp, np_i - 1));
            }
            assert(image_wf(data@, s, rpp));
            let tail = store.spec_tail_count();
            assert(page_slot_count(image_page(data@, s, rpp, np_i - 1)) == tail);
            assert(store.spec_num_rows() == image_num_rows(data@, s, rpp));
            assert forall|rid: int| 0 <= rid < store.spec_num_rows() implies store.rows()[rid]
                == image_rows(data@, s, rpp)[rid] by {
                lemma_rid_location(np_i, m_g, tail, rid);
                let q = rid / m_g;
                assert(store.pages@[q].data@ == image_page(data@, s, rpp, q));
                assert(store.pages@[q].wf());
                if q < np_i - 1 {
                    assert(store.pages@[q].spec_slot_count() == m_g);
                }
                assert(rid % m_g < page_slot_count(store.pages@[q].data@));
                assert(store.pages@[q].cells()[rid % m_g] == page_cell(
                    image_page(data@, s, rpp, q),
                    s,
                    rid % m_g,
                ));
            }
            assert(store.rows() =~~= image_rows(data@, s, rpp));
        }
        Ok(store)
    }

    /// A copy of the ledger header.
    pub fn access_header(&self) -> (r: Result<LedgerHeader, DatastoreError>)
        requires
            self.wf_core(),
        ensures
            r is Ok,
            (r->Ok_0).spec_name() == self.header.spec_name(),
            (r->Ok_0).spec_description() == self.header.spec_description(),
            (r->Ok_0).spec_num_pages() == self.header.spec_num_pages(),
            (r->Ok_0).spec_rows_per_page() == self.header.spec_rows_per_page(),
            (r->Ok_0).spec_page_cursor() == self.header.spec_page_cursor(),
            (r->Ok_0).flags.spec_bits() == self.header.flags.spec_bits(),
    {
        let ser = self.header.serialize();
        proof {
            crate::header::lemma_ledger_header_codec(self.header);
        }
        match LedgerHeader::deserialize(ser.as_slice()) {
            Ok(h) => Ok(h),
            Err(e) => Err(e),
        }
    }

    /// How many rows the store holds: every page but the tail is full, plus
    /// the tail's own count.
    pub fn num_rows(&self) -> (r: Result<u32, DatastoreError>)
        requires
            self.wf_core(),
        ensures
            r matches Ok(n) && n as int == self.rows().len(),
    {
        let ghost s = T::spec_row_size();
        let ghost rpp = T::spec_rows_per_page();
        proof {
            T::schema_bounds();
            crate::page::lemma_operand_bounds(s, rpp);
            crate::page::lemma_max_rows_cap(s, rpp);
            let np = self.spec_num_pages();
            let m = Self::spec_max_rows_per_page();
            assert((np - 1) * m + m == np * m) by (nonlinear_arith);
        }
        let np = self.header.num_pages();
        let m = SlottedPage::<T>::max_rows_per_page();
        let tail = match self.pages[(np - 1) as usize].access_header() {
            Ok(h) => h.slot_count(),
            Err(e) => {
                return Err(DatastoreError::PageError(e));
            },
        };
        Ok(self.header.num_rows(m as u32, tail))
    }

    /// Whether one more insert is within the machine's limits: either the
    /// tail page still has room, or one more page still keeps every row id
    /// a `u32` and the image length a `usize`.
    pub open spec fn can_insert(&self) -> bool {
        ||| self.spec_tail_count() < Self::spec_max_rows_per_page()
        ||| (self.spec_num_pages() + 1) * Self::spec_max_rows_per_page() <= u32::MAX
    }

    /// Appends one fresh, empty page and returns its id.  Moving the page
    /// cursor onto it is the caller's responsibility.  The row ids already
    /// handed out, every stored row, and every header field but the page
    /// count are unchanged.
    pub fn allocate_new_page(&mut self) -> (r: Result<usize, DatastoreError>)
        requires
            old(self).wf(),
            old(self).spec_tail_count() == Self::spec_max_rows_per_page(),
            (old(self).spec_num_pages() + 1) * Self::spec_max_rows_per_page() <= u32::MAX,
        ensures
            final(self).wf_core(),
            r matches Ok(p) && p as int == old(self).spec_num_pages(),
            final(self).spec_num_pages() == old(self).spec_num_pages() + 1,
            final(self).spec_tail_count() == 0,
            final(self).rows() == old(self).rows(),
            final(self).header.spec_name() == old(self).header.spec_name(),
            final(self).header.spec_description() == old(self).header.spec_description(),
            final(self).header.spec_page_cursor() == old(self).header.spec_page_cursor(),
            final(self).header.spec_rows_per_page() == old(self).header.spec_rows_per_page(),
            final(self).header.flags == old(self).header.flags,
            final(self).pages@.len() == old(self).pages@.len() + 1,
            forall|p: int|
                0 <= p < old(self).pages@.len() ==> final(self).pages@[p] == old(self).pages@[p],
            final(self).pages@[old(self).spec_num_pages()].data@ == crate::page::spec_fresh_page(
                T::spec_row_size(),
                T::spec_rows_per_page(),
            ),
    {
        let ghost s = T::spec_row_size();
        let ghost rpp = T::spec_rows_per_page();
        let ghost np = old(self).spec_num_pages();
        let ghost m = Self::spec_max_rows_per_page();
        proof {
            T::schema_bounds();
            crate::page::lemma_operand_bounds(s, rpp);
            crate::page::lemma_max_rows_cap(s, rpp);
            lemma_mul_inequality(1, np, m);
            lemma_mul_inequality(np, np + 1, m);
            assert((np + 1) * m == np * m + m) by (nonlinear_arith);
            assert(1 * m <= (np + 1) * m) by (nonlinear_arith)
                requires
                    1 <= np + 1,
                    1 <= m,
            ;
            assert(np + 1 <= (np + 1) * m) by (nonlinear_arith)
                requires
                    1 <= np + 1,
                    1 <= m,
            ;
        }
        let old_np = self.header.num_pages();
        self.pages.push(SlottedPage::new());
        self.header.set_num_pages(old_np + 1);
        proof {
            assert(self.wf_core());
            assert((np - 1) * m + m == np * m) by (nonlinear_arith);
            assert(self.spec_num_rows() == old(self).spec_num_rows());
            assert forall|rid: int| 0 <= rid < old(self).spec_num_rows() implies self.rows()[rid]
                == old(self).rows()[rid] by {
                lemma_rid_location(np, m, old(self).spec_tail_count(), rid);
            }
            assert(self.rows() =~~= old(self).rows());
        }
        Ok(old_np as usize)
    }

    /// Inserts one record at the next row id: into the tail page, or onto a
    /// freshly allocated page when the tail is full.  Row ids are dense and
    /// increase by one per insert.
    pub fn insert(&mut self, value: &T) -> (r: Result<u32, DatastoreError>)
        requires
            old(self).wf(),
            value.inv(),
            old(self).can_insert(),
        ensures
            final(self).wf(),
            r matches Ok(id) && id as int == old(self).rows().len(),
            final(self).rows() == old(self).rows().push(value.spec_encoded()),
            final(self).spec_num_pages() == (if old(self).spec_tail_count() < Self::spec_max_rows_per_page() {
                old(self).spec_num_pages()
            } else {
                old(self).spec_num_pages() + 1
            }),
            final(self).header.spec_name() == old(self).header.spec_name(),
            final(self).header.spec_description() == old(self).header.spec_description(),
            final(self).header.spec_rows_per_page() == old(self).header.spec_rows_per_page(),
            final(self).header.flags == old(self).header.flags,
            old(self).spec_tail_count() < Self::spec_max_rows_per_page() ==> (final(self).header
                == old(self).header && final(self).pages@.len() == old(self).pages@.len() && (
            forall|p: int|
                0 <= p < old(self).pages@.len() && p != old(self).spec_num_pages() - 1
                    ==> final(self).pages@[p] == old(self).pages@[p])
                && final(self).pages@[old(self).spec_num_pages() - 1].data@
                == crate::page::page_after_insert(
                old(self).pages@[old(self).spec_num_pages() - 1].data@,
                T::spec_row_size(),
                old(self).spec_tail_count(),
                value.spec_encoded(),
            )),
            old(self).spec_tail_count() >= Self::spec_max_rows_per_page()
                ==> (final(self).pages@.len() == old(self).pages@.len() + 1 && (forall|p: int|
                0 <= p < old(self).pages@.len() ==> final(self).pages@[p] == old(self).pages@[p])
                && final(self).pages@[old(self).spec_num_pages()].data@
                == crate::page::page_after_insert(
                crate::page::spec_fresh_page(T::spec_row_size(), T::spec_rows_per_page()),
                T::spec_row_size(),
                0,
                value.spec_encoded(),
            ) && final(self).header.spec_page_cursor() == old(self).header.spec_page_cursor()
                + 1),
    {
        let ghost s = T::spec_row_size();
        let ghost rpp = T::spec_rows_per_page();
        let ghost np = old(self).spec_num_pages();
        let ghost m = Self::spec_max_rows_per_page();
        let ghost k = old(self).spec_tail_count();
        proof {
            T::schema_bounds();
            crate::page::lemma_operand_bounds(s, rpp);
            crate::page::lemma_max_rows_cap(s, rpp);
            lemma_mul_inequality(1, np, m);
            assert((np - 1) * m + m == np * m) by (nonlinear_arith);
        }
        let pid = self.header.page_cursor();
        let mrows = SlottedPage::<T>::max_rows_per_page();
        let mut page = match self.pages.pop() {
            Some(p) => p,
            None => {
                return Err(DatastoreError::CorruptImage);
            },
        };
        match page.insert_row(value) {
            Ok(n) => {
                self.pages.push(page);
                proof {
                    assert(self.pages@ =~= old(self).pages@.update(np - 1, self.pages@[np - 1]));
                    assert(self.wf());
                    assert(self.spec_num_rows() == old(self).spec_num_rows() + 1);
                    assert forall|rid: int|
                        0 <= rid < old(self).spec_num_rows() implies self.rows()[rid] == old(
                        self,
                    ).rows()[rid] by {
                        lemma_rid_location(np, m, k + 1, rid);
                    }
                    lemma_rid_location(np, m, k + 1, old(self).spec_num_rows());
                    lemma_row_id_round_trip(np - 1, k, m);
                    assert((np - 1) * m + k == old(self).spec_num_rows());
                    assert(self.rows() =~~= old(self).rows().push(value.spec_encoded()));
                }
                proof {
                    vstd::arithmetic::mul::lemma_mul_nonnegative(pid as int, m);
                }
                Ok(pid * (mrows as u32) + n)
            },
            Err(_) => {
                // The tail page is full: allocate a fresh page, move the
                // cursor, and insert there.
                self.pages.push(page);
                proof {
                    assert(self.pages@ =~= old(self).pages@);
                    assert(k == m);
                    assert((np + 1) * m <= u32::MAX);
                }
                let new_pid = match self.allocate_new_page() {
                    Ok(p) => p,
                    Err(e) => {
                        return Err(e);
                    },
                };
                proof {
                    assert(np + 1 <= (np + 1) * m) by (nonlinear_arith)
                        requires
                            1 <= np + 1,
                            1 <= m,
                    ;
                }
                self.header.inc_page_cursor();
                let ghost mid = *self;
                let mut fresh = match self.pages.pop() {
                    Some(p) => p,
                    None => {
                        return Err(DatastoreError::CorruptImage);
                    },
                };
                let n2 = match fresh.insert_row(value) {
                    Ok(n2) => n2,
                    Err(_) => {
                        return Err(DatastoreError::PageError(PageError::NoSpace));
                    },
                };
                self.pages.push(fresh);
                proof {
                    assert(self.pages@ =~= mid.pages@.update(np, self.pages@[np]));
                    assert(forall|p: int| 0 <= p < np ==> self.pages@[p] == old(self).pages@[p]);
                    assert(self.pages@[np].data@ == crate::page::page_after_insert(
                        crate::page::spec_fresh_page(s, rpp),
                        s,
                        0,
                        value.spec_encoded(),
                    ));
                    assert(self.wf());
                    assert((np + 1 - 1) * m + 1 == np * m + 1) by (nonlinear_arith);
                    assert(self.spec_num_rows() == old(self).spec_num_rows() + 1);
                    assert forall|rid: int|
                        0 <= rid < old(self).spec_num_rows() implies self.rows()[rid] == old(
                        self,
                    ).rows()[rid] by {
                        lemma_rid_location(np + 1, m, 1, rid);
                        lemma_rid_location(np, m, k, rid);
                    }
                    lemma_rid_location(np + 1, m, 1, old(self).spec_num_rows());
                    lemma_row_id_round_trip(np, 0, m);
                    assert(old(self).spec_num_rows() == np * m);
                    assert(self.rows() =~~= old(self).rows().push(value.spec_encoded()));
                    vstd::arithmetic::mul::lemma_mul_nonnegative(np, m);
                }
                let id = RowQuery::<T>::to_row_id(new_pid as u32, n2);
                Ok(id)
            },
        }
    }

    /// Reads the record at a row id: `Some` for every stored row, `None` for
    /// an unfilled slot of an existing page, and `PageIdOutOfBounds` past the
    /// allocated pages.
    pub fn access_row(&self, row_id: u32) -> (r: Result<Option<T>, DatastoreError>)
        requires
            self.wf_core(),
        ensures
            (row_id as int) < self.rows().len() ==> (r matches Ok(Some(t)) && t@
                == T::spec_decoded(self.rows()[row_id as int]) && t.inv()),
            (row_id as int) >= self.rows().len() && (row_id as int) / Self::spec_max_rows_per_page()
                < self.spec_num_pages() ==> (r matches Ok(x) && x is None),
            (row_id as int) / Self::spec_max_rows_per_page() >= self.spec_num_pages() ==> r
                == Err::<Option<T>, DatastoreError>(
                DatastoreError::PageError(PageError::PageIdOutOfBounds),
            ),
    {
        let ghost s = T::spec_row_size();
        let ghost rpp = T::spec_rows_per_page();
        let ghost np = self.spec_num_pages();
        let ghost m = Self::spec_max_rows_per_page();
        let ghost k = self.spec_tail_count();
        proof {
            T::schema_bounds();
            crate::page::lemma_operand_bounds(s, rpp);
            crate::page::lemma_max_rows_cap(s, rpp);
            if (row_id as int) < self.spec_num_rows() {
                lemma_rid_location(np, m, k, row_id as int);
            } else {
                lemma_rid_out_of_range(np, m, k, row_id as int);
            }
        }
        let q = RowQuery::<T>::from_row_id(row_id);
        let np_u32 = self.header.num_pages();
        if q.page_id >= np_u32 {
            return Err(DatastoreError::PageError(PageError::PageIdOutOfBounds));
        }
        match self.pages[q.page_id as usize].access_row(q.page_row_n as usize) {
            Ok(x) => Ok(x),
            Err(e) => Err(DatastoreError::PageError(e)),
        }
    }

    /// Rewrites a stored row in place with the encoding of `value`; an
    /// unfilled slot is `RowNotFound` and a page past the allocated ones is
    /// `PageIdOutOfBounds`.  No other row changes.
    pub fn write_row(&mut self, row_id: u32, value: &T) -> (r: Result<(), DatastoreError>)
        requires
            old(self).wf_core(),
            value.inv(),
        ensures
            final(self).wf_core(),
            old(self).wf() ==> final(self).wf(),
            (row_id as int) < old(self).rows().len() ==> (r == Ok::<(), DatastoreError>(())
                && final(self).rows() == old(self).rows().update(
                row_id as int,
                value.spec_encoded(),
            )),
            (row_id as int) >= old(self).rows().len() ==> *final(self) == *old(self),
            (row_id as int) >= old(self).rows().len() && (row_id as int)
                / Self::spec_max_rows_per_page() < old(self).spec_num_pages() ==> r == Err::<
                (),
                DatastoreError,
            >(DatastoreError::PageError(PageError::RowNotFound)),
            (row_id as int) / Self::spec_max_rows_per_page() >= old(self).spec_num_pages() ==> r
                == Err::<(), DatastoreError>(
                DatastoreError::PageError(PageError::PageIdOutOfBounds),
            ),
    {
        let ghost s = T::spec_row_size();
        let ghost rpp = T::spec_rows_per_page();
        let ghost np = old(self).spec_num_pages();
        let ghost m = Self::spec_max_rows_per_page();
        let ghost k = old(self).spec_tail_count();
        proof {
            T::schema_bounds();
            crate::page::lemma_operand_bounds(s, rpp);
            crate::page::lemma_max_rows_cap(s, rpp);
            if (row_id as int) < old(self).spec_num_rows() {
                lemma_rid_location(np, m, k, row_id as int);
            } else {
                lemma_rid_out_of_range(np, m, k, row_id as int);
            }
        }
        let q = RowQuery::<T>::from_row_id(row_id);
        let np_u32 = self.header.num_pages();
        if q.page_id >= np_u32 {
            return Err(DatastoreError::PageError(PageError::PageIdOutOfBounds));
        }
        let pid = q.page_id as usize;
        let mut page = SlottedPage::<T> {
            data: slice_to_vec(self.pages[pid].data.as_slice()),
            row_type: core::marker::PhantomData,
        };
        match page.write_row(q.page_row_n as usize, value) {
            Ok(()) => {
                self.pages.set(pid, page);
                proof {
                    assert(self.wf_core());
                    assert(self.spec_num_rows() == old(self).spec_num_rows());
                    assert forall|rid: int|
                        0 <= rid < self.spec_num_rows() && rid != row_id as int implies
                        self.rows()[rid] == old(self).rows()[rid] by {
                        lemma_rid_location(np, m, k, rid);
                        if rid / m != pid as int {
                            assert(self.pages@[rid / m] == old(self).pages@[rid / m]);
                        } else {
                            assert(rid % m != row_id as int % m) by {
                                if rid % m == row_id as int % m {
                                    lemma_rid_location(np, m, k, row_id as int);
                                    assert(rid == (rid / m) * m + rid % m);
                                    assert(row_id as int == ((row_id as int) / m) * m + (
                                    row_id as int) % m);
                                }
                            }
                        }
                    }
                    assert(self.rows() =~~= old(self).rows().update(
                        row_id as int,
                        value.spec_encoded(),
                    ));
                }
                Ok(())
            },
            Err(e) => {
                // The slot lies past the filled ones; nothing was changed.
                Err(DatastoreError::PageError(e))
            },
        }
    }

    /// A copy of one page; `PageIdOutOfBounds` past the allocated pages.
    pub fn clone_page(&self, page_id: usize) -> (r: Result<SlottedPage<T>, DatastoreError>)
        requires
            self.wf_core(),
        ensures
            page_id < self.spec_num_pages() ==> (r matches Ok(p) && p.data@
                == self.pages@[page_id as int].data@ && p.wf()),
            page_id >= self.spec_num_pages() ==> r == Err::<SlottedPage<T>, DatastoreError>(
                DatastoreError::PageError(PageError::PageIdOutOfBounds),
            ),
    {
        let np_u32 = self.header.num_pages();
        if page_id >= np_u32 as usize {
            return Err(DatastoreError::PageError(PageError::PageIdOutOfBounds));
        }
        Ok(
            SlottedPage {
                data: slice_to_vec(self.pages[page_id].data.as_slice()),
                row_type: core::marker::PhantomData,
            },
        )
    }

    /// Replaces one page wholesale with a copy of `page`.  A page before the
    /// tail must stay full, and a multi-page tail non-empty, so the store's
    /// shape survives.
    pub fn write_page(&mut self, page_id: usize, page: &SlottedPage<T>) -> (r: Result<
        (),
        DatastoreError,
    >)
        requires
            old(self).wf(),
            page.wf(),
            (page_id as int) < old(self).spec_num_pages() - 1 ==> page.spec_slot_count()
                == Self::spec_max_rows_per_page(),
            (page_id as int) == old(self).spec_num_pages() - 1 && old(self).spec_num_pages() > 1
                ==> 1 <= page.spec_slot_count(),
        ensures
            final(self).wf(),
            final(self).header == old(self).header,
            page_id < old(self).spec_num_pages() ==> (r == Ok::<(), DatastoreError>(())
                && final(self).pages@.len() == old(self).pages@.len()
                && final(self).pages@[page_id as int].data@ == page.data@ && (forall|p: int|
                0 <= p < old(self).pages@.len() && p != page_id
                    ==> final(self).pages@[p] == old(self).pages@[p])),
            page_id >= old(self).spec_num_pages() ==> (*final(self) == *old(self) && r == Err::<
                (),
                DatastoreError,
            >(DatastoreError::PageError(PageError::PageIdOutOfBounds))),
    {
        let np_u32 = self.header.num_pages();
        if page_id >= np_u32 as usize {
            return Err(DatastoreError::PageError(PageError::PageIdOutOfBounds));
        }
        let copy = SlottedPage::<T> {
            data: slice_to_vec(page.data.as_slice()),
            row_type: core::marker::PhantomData,
        };
        self.pages.set(page_id, copy);
        Ok(())
    }

    /// The on-disk image of the store; its length is always the header plus
    /// `num_pages` whole pages.
    pub fn bytes(&self) -> (r: Vec<u8>)
        requires
            self.wf_core(),
        ensures
            r@ == self.spec_image(),
            r@.len() == 68 + self.spec_num_pages() * spec_page_size(
                T::spec_row_size(),
                T::spec_rows_per_page(),
            ),
    {
        proof {
            T::schema_bounds();
        }
        let ghost psz = spec_page_size(T::spec_row_size(), T::spec_rows_per_page());
        let ghost chunks = self.pages@.map_values(|p: SlottedPage<T>| p.data@);
        let mut out = self.header.serialize();
        let np = self.pages.len();
        let mut i: usize = 0;
        while i < np
            invariant
                i <= np,
                np == self.pages@.len(),
                self.wf_core(),
                chunks == self.pages@.map_values(|p: SlottedPage<T>| p.data@),
                out@ == self.header.spec_serialized() + concat_bytes(chunks.take(i as int)),
            decreases np - i,
        {
            push_bytes(&mut out, &self.pages[i].data);
            proof {
                assert(chunks.take(i + 1).drop_last() == chunks.take(i as int));
                assert(chunks.take(i + 1).last() == self.pages@[i as int].data@);
            }
            i = i + 1;
        }
        proof {
            assert(chunks.take(np as int) == chunks);
            assert(forall|p: int|
                0 <= p < chunks.len() ==> (#[trigger] chunks[p]).len() == psz);
            lemma_concat_bytes_len(chunks, psz);
        }
        out
    }
}

} // verus!
