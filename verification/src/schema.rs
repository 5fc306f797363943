//! Concrete record schemas.
//!
//! The engine depends only on the [`PageSchema`] contract; a schema is
//! ordinary hand-written code.  [`FileManifest`] is a document-catalogue row
//! with an id and two fixed-width strings; [`MiniRow`] is a six-byte row
//! whose page holds exactly three rows, small enough to exercise page
//! rollover and logical deletion.

use crate::header::spec_space_padded;
use crate::page::PageSchema;
use crate::utils::DatastoreError;
use vstd::bytes::{spec_u32_from_le_bytes, spec_u32_to_le_bytes, u32_from_le_bytes, u32_to_le_bytes};
use vstd::pervasive::VecAdditionalExecFns;
use vstd::prelude::*;
use vstd::slice::{slice_index_get, slice_subrange, slice_to_vec};
use vstd::string::StringSliceAdditionalSpecFns;

verus! {

/// `buf` with its first `b.len()` bytes replaced by `b`.
pub open spec fn spec_overlay(buf: Seq<u8>, b: Seq<u8>) -> Seq<u8> {
    Seq::new(
        buf.len(),
        |i: int|
            if i < b.len() {
                b[i]
            } else {
                buf[i]
            },
    )
}

/// The length a fixed-width string field records: the input's byte length,
/// truncated to the field width.
pub open spec fn spec_clipped_len(b: Seq<u8>, n: int) -> int {
    if b.len() < n {
        b.len() as int
    } else {
        n
    }
}

/// Copies `input` into a fresh 32-byte, space-padded buffer, returning the
/// buffer and the recorded length.
fn padded_32(input: &str) -> (r: (Vec<u8>, u8))
    ensures
        r.0@ == spec_space_padded(input.spec_bytes(), 32),
        r.1 as int == spec_clipped_len(input.spec_bytes(), 32),
{
    let bytes = input.as_bytes();
    let len = if bytes.len() < 32 {
        bytes.len()
    } else {
        32
    };
    let mut v: Vec<u8> = Vec::new();
    let mut i: usize = 0;
    while i < len
        invariant
            len <= bytes@.len(),
            len <= 32,
            i <= len,
            v@.len() == i,
            forall|j: int| 0 <= j < i ==> v@[j] == bytes@[j],
        decreases len - i,
    {
        v.push(*slice_index_get(bytes, i));
        i = i + 1;
    }
    while i < 32
        invariant
            len <= bytes@.len(),
            len <= i <= 32,
            v@.len() == i,
            forall|j: int| 0 <= j < len ==> v@[j] == bytes@[j],
            forall|j: int| len <= j < i ==> v@[j] == 32u8,
        decreases 32 - i,
    {
        v.push(32);
        i = i + 1;
    }
    proof {
        assert(v@ =~= spec_space_padded(input.spec_bytes(), 32));
    }
    (v, len as u8)
}

/// The mathematical view of a [`FileManifest`] record.
pub struct FileManifestV {
    /// The document id.
    pub id: u32,
    /// How many of the title bytes are set.
    pub title_len: u8,
    /// The 32-byte title buffer.
    pub title: Seq<u8>,
    /// How many of the location bytes are set.
    pub location_len: u8,
    /// The 32-byte location buffer.
    pub location: Seq<u8>,
}

/// A document-catalogue row: an id and two fixed-width strings, 72 bytes on
/// disk, little-endian throughout, with a two-byte trailing pad.
#[derive(Debug)]
pub struct FileManifest {
    id: u32,
    title_len: u8,
    title: Vec<u8>,
    location_len: u8,
    location: Vec<u8>,
}

impl View for FileManifest {
    type V = FileManifestV;

    closed spec fn view(&self) -> FileManifestV {
        FileManifestV {
            id: self.id,
            title_len: self.title_len,
            title: self.title@,
            location_len: self.location_len,
            location: self.location@,
        }
    }
}

impl FileManifest {
    /// A record with the given id and strings, each string truncated to 32
    /// bytes and padded with spaces.
    pub fn new(id: u32, title: &str, location: &str) -> (r: Self)
        ensures
            r@.id == id,
            r@.title == spec_space_padded(title.spec_bytes(), 32),
            r@.title_len as int == spec_clipped_len(title.spec_bytes(), 32),
            r@.location == spec_space_padded(location.spec_bytes(), 32),
            r@.location_len as int == spec_clipped_len(location.spec_bytes(), 32),
            r.inv(),
    {
        let (title_buf, title_len) = padded_32(title);
        let (location_buf, location_len) = padded_32(location);
        FileManifest {
            id,
            title_len,
            title: title_buf,
            location_len,
            location: location_buf,
        }
    }

    /// A blank record: id zero, both strings unset and space-filled.
    pub fn default() -> (r: Self)
        ensures
            r@.id == 0,
            r@.title_len == 0,
            r@.title == spec_space_padded(Seq::<u8>::empty(), 32),
            r@.location_len == 0,
            r@.location == spec_space_padded(Seq::<u8>::empty(), 32),
            r.inv(),
    {
        let (title_buf, _tl) = padded_32("");
        let (location_buf, _ll) = padded_32("");
        proof {
            reveal_strlit("");
            assert(""@ =~= Seq::<char>::empty());
            assert(vstd::utf8::encode_utf8(Seq::<char>::empty()) =~= Seq::<u8>::empty());
        }
        FileManifest {
            id: 0,
            title_len: 0,
            title: title_buf,
            location_len: 0,
            location: location_buf,
        }
    }

    /// Returns the document id.
    pub fn id(&self) -> (r: u32)
        ensures
            r == self@.id,
    {
        self.id
    }

    /// Sets the document id.
    pub fn set_id(&mut self, val: u32)
        ensures
            final(self)@ == (FileManifestV { id: val, ..old(self)@ }),
    {
        self.id = val;
    }

    /// The set bytes of the title.
    pub fn title(&self) -> (r: Vec<u8>)
        requires
            self.inv(),
        ensures
            r@ == self@.title.subrange(0, self@.title_len as int),
    {
        slice_to_vec(slice_subrange(self.title.as_slice(), 0, self.title_len as usize))
    }

    /// Sets the title: the bytes of `val` must be at least one and at most
    /// thirty-two, or the record is left untouched and a length error comes
    /// back.
    pub fn set_title(&mut self, val: &str) -> (r: Result<(), DatastoreError>)
        requires
            old(self).inv(),
        ensures
            final(self).inv(),
            1 <= val.spec_bytes().len() <= 32 ==> (r == Ok::<(), DatastoreError>(())
                && final(self)@ == (FileManifestV {
                title_len: val.spec_bytes().len() as u8,
                title: spec_overlay(old(self)@.title, val.spec_bytes()),
                ..old(self)@
            })),
            !(1 <= val.spec_bytes().len() <= 32) ==> (*final(self) == *old(self) && r matches Err(
                DatastoreError::Error(_),
            )),
    {
        let bytes = val.as_bytes();
        let byte_len = bytes.len();
        if byte_len > 32 || byte_len == 0 {
            return Err(DatastoreError::Error("title length out of bounds".to_owned()));
        }
        let mut i: usize = 0;
        while i < byte_len
            invariant
                i <= byte_len,
                byte_len <= 32,
                byte_len == bytes@.len(),
                self.title@.len() == 32,
                self.id == old(self).id,
                self.title_len == old(self).title_len,
                self.location_len == old(self).location_len,
                self.location == old(self).location,
                forall|j: int| 0 <= j < i ==> self.title@[j] == bytes@[j],
                forall|j: int| i <= j < 32 ==> self.title@[j] == old(self).title@[j],
            decreases byte_len - i,
        {
            self.title.set(i, *slice_index_get(bytes, i));
            i = i + 1;
        }
        self.title_len = byte_len as u8;
        proof {
            assert(self@.title =~= spec_overlay(old(self)@.title, val.spec_bytes()));
        }
        Ok(())
    }

    /// The set bytes of the location.
    pub fn location(&self) -> (r: Vec<u8>)
        requires
            self.inv(),
        ensures
            r@ == self@.location.subrange(0, self@.location_len as int),
    {
        slice_to_vec(slice_subrange(self.location.as_slice(), 0, self.location_len as usize))
    }

    /// Sets the location, under the same length rule as the title.
    pub fn set_location(&mut self, val: &str) -> (r: Result<(), DatastoreError>)
        requires
            old(self).inv(),
        ensures
            final(self).inv(),
            1 <= val.spec_bytes().len() <= 32 ==> (r == Ok::<(), DatastoreError>(())
                && final(self)@ == (FileManifestV {
                location_len: val.spec_bytes().len() as u8,
                location: spec_overlay(old(self)@.location, val.spec_bytes()),
                ..old(self)@
            })),
            !(1 <= val.spec_bytes().len() <= 32) ==> (*final(self) == *old(self) && r matches Err(
                DatastoreError::Error(_),
            )),
    {
        let bytes = val.as_bytes();
        let byte_len = bytes.len();
        if byte_len > 32 || byte_len == 0 {
            return Err(DatastoreError::Error("location length out of bounds".to_owned()));
        }
        let mut i: usize = 0;
        while i < byte_len
            invariant
                i <= byte_len,
                byte_len <= 32,
                byte_len == bytes@.len(),
                self.location@.len() == 32,
                self.id == old(self).id,
                self.title_len == old(self).title_len,
                self.location_len == old(self).location_len,
                self.title == old(self).title,
                forall|j: int| 0 <= j < i ==> self.location@[j] == bytes@[j],
                forall|j: int| i <= j < 32 ==> self.location@[j] == old(self).location@[j],
            decreases byte_len - i,
        {
            self.location.set(i, *slice_index_get(bytes, i));
            i = i + 1;
        }
        self.location_len = byte_len as u8;
        proof {
            assert(self@.location =~= spec_overlay(old(self)@.location, val.spec_bytes()));
        }
        Ok(())
    }
}

impl PageSchema for FileManifest {
    open spec fn spec_row_size() -> int {
        72
    }

    open spec fn spec_rows_per_page() -> int {
        4096
    }

    open spec fn inv(&self) -> bool {
        &&& self@.title.len() == 32
        &&& self@.location.len() == 32
        &&& self@.title_len <= 32
        &&& self@.location_len <= 32
    }

    open spec fn spec_encoded(&self) -> Seq<u8> {
        spec_u32_to_le_bytes(self@.id) + seq![self@.title_len] + self@.title + seq![
            self@.location_len,
        ] + self@.location + seq![0u8, 0u8]
    }

    open spec fn spec_decoded(b: Seq<u8>) -> FileManifestV {
        FileManifestV {
            id: spec_u32_from_le_bytes(b.subrange(0, 4)),
            title_len: if b[4] <= 32 {
                b[4]
            } else {
                32u8
            },
            title: b.subrange(5, 37),
            location_len: if b[37] <= 32 {
                b[37]
            } else {
                32u8
            },
            location: b.subrange(38, 70),
        }
    }

    open spec fn spec_deleted(page_row_n: int) -> Seq<u8> {
        Seq::<u8>::empty()
    }

    proof fn schema_bounds() {
    }

    proof fn lemma_encoded_len(&self) {
        vstd::bytes::lemma_auto_spec_u32_to_from_le_bytes();
    }

    proof fn lemma_codec_round_trip(&self) {
        vstd::bytes::lemma_auto_spec_u32_to_from_le_bytes();
        let e = self.spec_encoded();
        assert(e.subrange(0, 4) =~= spec_u32_to_le_bytes(self@.id));
        assert(e.subrange(5, 37) =~= self@.title);
        assert(e.subrange(38, 70) =~= self@.location);
    }

    proof fn lemma_deleted_len(page_row_n: int) {
    }

    fn row_size() -> usize {
        72
    }

    fn rows_per_page() -> usize {
        4096
    }

    fn to_bytes(&self) -> (r: Vec<u8>) {
        proof {
            vstd::bytes::lemma_auto_spec_u32_to_from_le_bytes();
        }
        let mut v = u32_to_le_bytes(self.id);
        v.push(self.title_len);
        crate::codec::push_bytes(&mut v, &self.title);
        v.push(self.location_len);
        crate::codec::push_bytes(&mut v, &self.location);
        v.push(0);
        v.push(0);
        proof {
            assert(v@ =~= self.spec_encoded());
        }
        v
    }

    fn from_bytes(f: &[u8]) -> (r: Self) {
        let raw_title_len = *slice_index_get(f, 4);
        let title_len = if raw_title_len <= 32 {
            raw_title_len
        } else {
            32
        };
        let raw_location_len = *slice_index_get(f, 37);
        let location_len = if raw_location_len <= 32 {
            raw_location_len
        } else {
            32
        };
        FileManifest {
            id: u32_from_le_bytes(slice_subrange(f, 0, 4)),
            title_len,
            title: slice_to_vec(slice_subrange(f, 5, 37)),
            location_len,
            location: slice_to_vec(slice_subrange(f, 38, 70)),
        }
    }

    fn deleted_row(page_row_n: usize) -> (r: Vec<u8>) {
        Vec::new()
    }
}

/// The mathematical view of a [`MiniRow`] record.
pub struct MiniRowV {
    /// The row's id.
    pub id: u32,
}

/// A six-byte row (an id and a two-byte pad) provisioned at five rows per
/// page, so that exactly three rows fit in each 46-byte page.  Its deleted
/// sentinel is a row of `0xff` bytes.
#[derive(Debug)]
pub struct MiniRow {
    id: u32,
}

impl View for MiniRow {
    type V = MiniRowV;

    closed spec fn view(&self) -> MiniRowV {
        MiniRowV { id: self.id }
    }
}

impl MiniRow {
    /// A row with the given id.
    pub fn new(id: u32) -> (r: Self)
        ensures
            r@.id == id,
            r.inv(),
    {
        MiniRow { id }
    }

    /// Returns the row's id.
    pub fn id(&self) -> (r: u32)
        ensures
            r == self@.id,
    {
        self.id
    }

    /// Sets the row's id.
    pub fn set_id(&mut self, val: u32)
        ensures
            final(self)@.id == val,
    {
        self.id = val;
    }
}

impl PageSchema for MiniRow {
    open spec fn spec_row_size() -> int {
        6
    }

    open spec fn spec_rows_per_page() -> int {
        5
    }

    open spec fn inv(&self) -> bool {
        true
    }

    open spec fn spec_encoded(&self) -> Seq<u8> {
        spec_u32_to_le_bytes(self@.id) + seq![0u8, 0u8]
    }

    open spec fn spec_decoded(b: Seq<u8>) -> MiniRowV {
        MiniRowV { id: spec_u32_from_le_bytes(b.subrange(0, 4)) }
    }

    open spec fn spec_deleted(page_row_n: int) -> Seq<u8> {
        Seq::new(6, |i: int| 0xffu8)
    }

    proof fn schema_bounds() {
    }

    proof fn lemma_encoded_len(&self) {
        vstd::bytes::lemma_auto_spec_u32_to_from_le_bytes();
    }

    proof fn lemma_codec_round_trip(&self) {
        vstd::bytes::lemma_auto_spec_u32_to_from_le_bytes();
        assert(self.spec_encoded().subrange(0, 4) =~= spec_u32_to_le_bytes(self@.id));
    }

    proof fn lemma_deleted_len(page_row_n: int) {
    }

    fn row_size() -> usize {
        6
    }

    fn rows_per_page() -> usize {
        5
    }

    fn to_bytes(&self) -> (r: Vec<u8>) {
        proof {
            vstd::bytes::lemma_auto_spec_u32_to_from_le_bytes();
        }
        let mut v = u32_to_le_bytes(self.id);
        v.push(0);
        v.push(0);
        proof {
            assert(v@ =~= self.spec_encoded());
        }
        v
    }

    fn from_bytes(f: &[u8]) -> (r: Self) {
        MiniRow { id: u32_from_le_bytes(slice_subrange(f, 0, 4)) }
    }

    fn deleted_row(page_row_n: usize) -> (r: Vec<u8>) {
        let mut v: Vec<u8> = Vec::new();
        let mut i: usize = 0;
        while i < 6
            invariant
                i <= 6,
                v@.len() == i,
                forall|j: int| 0 <= j < i ==> v@[j] == 0xffu8,
            decreases 6 - i,
        {
            v.push(0xff);
            i = i + 1;
        }
        proof {
            assert(v@ =~= Seq::new(6, |i: int| 0xffu8));
        }
        v
    }
}

} // verus!
