//! Tests of the slotted page and the record schemas.

use ledger_rs::page::{page_sz, PageSchema, SlottedPage};
use ledger_rs::schema::{FileManifest, MiniRow};
use ledger_rs::utils::{DatastoreError, PageError};

#[test]
fn page_constants() {
    assert_eq!(FileManifest::row_size(), 72);
    assert_eq!(FileManifest::rows_per_page(), 4096);
    assert_eq!(page_sz::<FileManifest>(), 16 + 72 * 4096);
    assert_eq!(SlottedPage::<FileManifest>::row_sz(), 76);
    assert_eq!(SlottedPage::<FileManifest>::max_rows_per_page(), 72 * 4096 / 76);
    assert_eq!(page_sz::<MiniRow>(), 46);
    assert_eq!(SlottedPage::<MiniRow>::row_sz(), 10);
    assert_eq!(SlottedPage::<MiniRow>::max_rows_per_page(), 3);
}

#[test]
fn fresh_page_is_empty() {
    let page = SlottedPage::<MiniRow>::new();
    let h = page.access_header().unwrap();
    assert_eq!(h.slot_count(), 0);
    assert_eq!(h.free_start(), 16);
    assert_eq!(h.free_end(), 46);
    assert_eq!(page.free_space().unwrap(), 30);
    assert_eq!(page.data.len(), 46);
}

#[test]
fn insert_fills_slots_until_no_space() {
    let mut page = SlottedPage::<MiniRow>::new();
    for n in 0..3u32 {
        assert_eq!(page.insert_row(&MiniRow::new(n)).unwrap(), n);
        let h = page.access_header().unwrap();
        assert_eq!(h.slot_count(), n + 1);
        // The slot directory ends at free_start and the cells fill the page
        // back from free_end.
        assert_eq!(h.free_start(), 16 + 4 * (n + 1));
        assert_eq!(h.free_end(), 46 - 6 * (n + 1));
        assert!(h.free_start() <= h.free_end());
    }
    assert_eq!(page.insert_row(&MiniRow::new(3)), Err(PageError::NoSpace));
    // The failed insert left the page untouched.
    assert_eq!(page.access_header().unwrap().slot_count(), 3);
    assert_eq!(page.access_row(0).unwrap().unwrap().id(), 0);
}

#[test]
fn access_row_reads_back_inserts() {
    let mut page = SlottedPage::<FileManifest>::new();
    page.insert_row(&FileManifest::new(10, "first", "/a")).unwrap();
    page.insert_row(&FileManifest::new(20, "second", "/b")).unwrap();
    let row = page.access_row(0).unwrap().unwrap();
    assert_eq!(row.id(), 10);
    assert_eq!(row.title(), b"first".to_vec());
    assert_eq!(row.location(), b"/a".to_vec());
    let row = page.access_row(1).unwrap().unwrap();
    assert_eq!(row.id(), 20);
    assert!(page.access_row(2).unwrap().is_none());
}

#[test]
fn write_row_replaces_one_cell() {
    let mut page = SlottedPage::<MiniRow>::new();
    page.insert_row(&MiniRow::new(1)).unwrap();
    page.insert_row(&MiniRow::new(2)).unwrap();
    page.write_row(0, &MiniRow::new(99)).unwrap();
    assert_eq!(page.access_row(0).unwrap().unwrap().id(), 99);
    assert_eq!(page.access_row(1).unwrap().unwrap().id(), 2);
    assert_eq!(page.write_row(2, &MiniRow::new(0)), Err(PageError::RowNotFound));
}

#[test]
fn deleted_sentinel_overwrites_cell() {
    let mut page = SlottedPage::<MiniRow>::new();
    page.insert_row(&MiniRow::new(1)).unwrap();
    page.insert_row(&MiniRow::new(2)).unwrap();
    page.set_row_deleted(1).unwrap();
    // Slot count and the other row are untouched.
    assert_eq!(page.access_header().unwrap().slot_count(), 2);
    assert_eq!(page.access_row(0).unwrap().unwrap().id(), 1);
    // The deleted cell holds the all-ones sentinel.
    assert_eq!(page.access_row(1).unwrap().unwrap().id(), 0xffffffff);
    assert_eq!(page.set_row_deleted(2), Err(PageError::RowIdOutOfBounds));
}

#[test]
fn empty_sentinel_leaves_cell_intact() {
    // FileManifest has no deletion sentinel: deleting is a no-op.
    assert!(FileManifest::deleted_row(0).is_empty());
    let mut page = SlottedPage::<FileManifest>::new();
    page.insert_row(&FileManifest::new(7, "keep", "/k")).unwrap();
    page.set_row_deleted(0).unwrap();
    let row = page.access_row(0).unwrap().unwrap();
    assert_eq!(row.id(), 7);
    assert_eq!(row.title(), b"keep".to_vec());
}

#[test]
fn from_image_validates_page_bytes() {
    let mut page = SlottedPage::<MiniRow>::new();
    page.insert_row(&MiniRow::new(4)).unwrap();
    let good = page.data.clone();
    let adopted = SlottedPage::<MiniRow>::from_image(good.clone()).unwrap();
    assert_eq!(adopted.access_row(0).unwrap().unwrap().id(), 4);
    // Wrong length.
    assert_eq!(
        SlottedPage::<MiniRow>::from_image(good[..45].to_vec()).unwrap_err(),
        PageError::ConversionError
    );
    // A free-space counter that disagrees with the slot count.
    let mut bad = good.clone();
    bad[8] = 99;
    assert_eq!(
        SlottedPage::<MiniRow>::from_image(bad).unwrap_err(),
        PageError::ConversionError
    );
    // A slot entry pointing at the wrong cell.
    let mut bad = good;
    bad[16] = 0;
    assert_eq!(
        SlottedPage::<MiniRow>::from_image(bad).unwrap_err(),
        PageError::ConversionError
    );
}

#[test]
fn manifest_codec_round_trip() {
    let v = FileManifest::new(0xdeadbeef, "a title", "/somewhere/deep");
    let bytes = v.to_bytes();
    assert_eq!(bytes.len(), 72);
    // Little-endian id in the first four bytes.
    assert_eq!(&bytes[0..4], &[0xef, 0xbe, 0xad, 0xde]);
    let back = FileManifest::from_bytes(&bytes);
    assert_eq!(back.id(), 0xdeadbeef);
    assert_eq!(back.title(), b"a title".to_vec());
    assert_eq!(back.location(), b"/somewhere/deep".to_vec());
}

#[test]
fn mini_codec_round_trip() {
    let v = MiniRow::new(0x01020304);
    let bytes = v.to_bytes();
    assert_eq!(bytes, vec![0x04, 0x03, 0x02, 0x01, 0, 0]);
    let back = MiniRow::from_bytes(&bytes);
    assert_eq!(back.id(), 0x01020304);
}

#[test]
fn manifest_constructor_truncates() {
    let long = "y".repeat(40);
    let v = FileManifest::new(1, &long, "loc");
    assert_eq!(v.title().len(), 32);
    assert!(v.title().iter().all(|&b| b == b'y'));
    let d = FileManifest::default();
    assert_eq!(d.id(), 0);
    assert_eq!(d.title(), Vec::<u8>::new());
    assert_eq!(d.location(), Vec::<u8>::new());
}

#[test]
fn string_setter_rejects_bad_lengths() {
    let mut v = FileManifest::new(3, "old", "/old");
    let too_long = "z".repeat(33);
    assert!(matches!(v.set_title(&too_long), Err(DatastoreError::Error(_))));
    assert!(matches!(v.set_title(""), Err(DatastoreError::Error(_))));
    // The failed setters left the record untouched.
    assert_eq!(v.title(), b"old".to_vec());
    assert_eq!(v.id(), 3);
    // A legal length goes through.
    v.set_title("new title").unwrap();
    assert_eq!(v.title(), b"new title".to_vec());
    assert!(matches!(v.set_location(""), Err(DatastoreError::Error(_))));
    assert_eq!(v.location(), b"/old".to_vec());
    v.set_location("/new").unwrap();
    assert_eq!(v.location(), b"/new".to_vec());
    v.set_id(9);
    assert_eq!(v.id(), 9);
}

#[test]
fn mini_row_setter() {
    let mut v = MiniRow::new(1);
    v.set_id(77);
    assert_eq!(v.id(), 77);
}
