//! End-to-end tests of the ledger store.

use ledger_rs::header::{LedgerDescription, LedgerName};
use ledger_rs::ledger::{DataLedgerStore, RowQuery};
use ledger_rs::page::{PageSchema, SlottedPage};
use ledger_rs::schema::{FileManifest, MiniRow};
use ledger_rs::utils::{DatastoreError, PageError};

fn docs_name() -> LedgerName {
    LedgerName::new(*b"Docs     ")
}

fn fresh_manifest_ledger() -> DataLedgerStore<FileManifest> {
    DataLedgerStore::create(docs_name(), LedgerDescription::new("x"))
}

fn fresh_mini_ledger() -> DataLedgerStore<MiniRow> {
    DataLedgerStore::create(LedgerName::new(*b"MiniLedgr"), LedgerDescription::new("tiny rows"))
}

#[test]
fn fresh_ledger_single_insert() {
    let mut ledger = fresh_manifest_ledger();
    let id = ledger.insert(&FileManifest::new(7, "hi", "/a")).unwrap();
    assert_eq!(id, 0);
    let row = ledger.access_row(0).unwrap().unwrap();
    assert_eq!(row.id(), 7);
    assert_eq!(row.title(), b"hi".to_vec());
    assert_eq!(ledger.num_rows().unwrap(), 1);
    // File size is the ledger header plus one page.
    let page_sz = ledger_rs::page::page_sz::<FileManifest>() as usize;
    assert_eq!(ledger.bytes().len(), 68 + page_sz);
}

#[test]
fn page_rollover() {
    // MiniRow pages hold exactly three rows.
    assert_eq!(SlottedPage::<MiniRow>::max_rows_per_page(), 3);
    let mut ledger = fresh_mini_ledger();
    for n in 0..4u32 {
        let id = ledger.insert(&MiniRow::new(n + 100)).unwrap();
        assert_eq!(id, n);
    }
    assert_eq!(ledger.num_rows().unwrap(), 4);
    let header = ledger.access_header().unwrap();
    assert_eq!(header.num_pages(), 2);
    let page0 = ledger.clone_page(0).unwrap();
    assert_eq!(page0.access_header().unwrap().slot_count(), 3);
    let page1 = ledger.clone_page(1).unwrap();
    assert_eq!(page1.access_header().unwrap().slot_count(), 1);
}

#[test]
fn boundary_insert_lands_on_next_page() {
    let mut ledger = fresh_mini_ledger();
    for n in 0..3u32 {
        let id = ledger.insert(&MiniRow::new(n)).unwrap();
        let q = RowQuery::<MiniRow>::from_row_id(id);
        assert_eq!((q.page_id, q.page_row_n), (0, n));
    }
    assert_eq!(ledger.access_header().unwrap().num_pages(), 1);
    // Insert number three lands on page one, slot zero, and allocates.
    let id = ledger.insert(&MiniRow::new(3)).unwrap();
    assert_eq!(id, 3);
    let q = RowQuery::<MiniRow>::from_row_id(id);
    assert_eq!((q.page_id, q.page_row_n), (1, 0));
    assert_eq!(ledger.access_header().unwrap().num_pages(), 2);
}

#[test]
fn persistence_round_trip() {
    let mut ledger = fresh_manifest_ledger();
    for n in 0..10u32 {
        let title = format!("doc {}", n);
        let id = ledger.insert(&FileManifest::new(n, &title, "/tmp/docs")).unwrap();
        assert_eq!(id, n);
    }
    let image = ledger.bytes();
    drop(ledger);
    let reopened = DataLedgerStore::<FileManifest>::attach(image).unwrap();
    assert_eq!(reopened.num_rows().unwrap(), 10);
    for n in 0..10u32 {
        let row = reopened.access_row(n).unwrap().unwrap();
        assert_eq!(row.id(), n);
        assert_eq!(row.title(), format!("doc {}", n).into_bytes());
    }
}

#[test]
fn reopened_image_renders_identically() {
    let mut ledger = fresh_mini_ledger();
    for n in 0..7u32 {
        ledger.insert(&MiniRow::new(n * 3)).unwrap();
    }
    let image = ledger.bytes();
    let reopened = DataLedgerStore::<MiniRow>::attach(image.clone()).unwrap();
    assert_eq!(reopened.bytes(), image);
}

#[test]
fn random_read_after_bulk_insert() {
    let mut ledger = fresh_manifest_ledger();
    const N: u32 = 100_000;
    for n in 0..N {
        let id = ledger.insert(&FileManifest::new(n, "bulk", "/data")).unwrap();
        assert_eq!(id, n);
    }
    assert_eq!(ledger.num_rows().unwrap(), N);
    // Visit every row id once, in an order scrambled by a linear
    // congruential generator.
    let mut order: Vec<u32> = (0..N).collect();
    let mut state: u64 = 0x2545f4914f6cdd1d;
    for i in (1..order.len()).rev() {
        state = state.wrapping_mul(6364136223846793005).wrapping_add(1442695040888963407);
        let j = (state >> 33) as usize % (i + 1);
        order.swap(i, j);
    }
    for &rid in &order {
        let row = ledger.access_row(rid).unwrap().unwrap();
        assert_eq!(row.id(), rid);
    }
}

#[test]
fn in_place_mutation_survives_reopen() {
    let mut ledger = fresh_manifest_ledger();
    ledger.insert(&FileManifest::new(1, "a", "/x")).unwrap();
    let mut row = ledger.access_row(0).unwrap().unwrap();
    row.set_title("bb").unwrap();
    ledger.write_row(0, &row).unwrap();
    let image = ledger.bytes();
    drop(ledger);
    let reopened = DataLedgerStore::<FileManifest>::attach(image).unwrap();
    let row = reopened.access_row(0).unwrap().unwrap();
    assert_eq!(row.title(), b"bb".to_vec());
    assert_eq!(row.id(), 1);
}

#[test]
fn logical_delete_keeps_row_count() {
    let mut ledger = fresh_mini_ledger();
    ledger.insert(&MiniRow::new(5)).unwrap();
    ledger.insert(&MiniRow::new(6)).unwrap();
    // MiniRow's sentinel is non-empty: the cell is overwritten in place.
    let mut page = ledger.clone_page(0).unwrap();
    page.set_row_deleted(0).unwrap();
    assert_eq!(page.access_header().unwrap().slot_count(), 2);
    ledger.write_page(0, &page).unwrap();
    assert_eq!(ledger.num_rows().unwrap(), 2);
    // The deleted cell now decodes to the all-ones sentinel id.
    let row = ledger.access_row(0).unwrap().unwrap();
    assert_eq!(row.id(), 0xffffffff);
    let row = ledger.access_row(1).unwrap().unwrap();
    assert_eq!(row.id(), 6);
}

#[test]
fn read_past_end_is_none_not_stale() {
    let mut ledger = fresh_mini_ledger();
    for n in 0..2u32 {
        ledger.insert(&MiniRow::new(n)).unwrap();
    }
    assert!(ledger.access_row(2).unwrap().is_none());
    // A row id on a page that was never allocated is an error.
    assert!(matches!(
        ledger.access_row(1000),
        Err(DatastoreError::PageError(PageError::PageIdOutOfBounds))
    ));
}

#[test]
fn access_row_is_pure() {
    let mut ledger = fresh_mini_ledger();
    ledger.insert(&MiniRow::new(42)).unwrap();
    let image_before = ledger.bytes();
    let first = ledger.access_row(0).unwrap().unwrap().id();
    let second = ledger.access_row(0).unwrap().unwrap().id();
    assert_eq!(first, 42);
    assert_eq!(second, 42);
    assert_eq!(ledger.bytes(), image_before);
}

#[test]
fn write_row_errors_leave_ledger_unchanged() {
    let mut ledger = fresh_mini_ledger();
    ledger.insert(&MiniRow::new(9)).unwrap();
    let before = ledger.bytes();
    assert!(matches!(
        ledger.write_row(1, &MiniRow::new(0)),
        Err(DatastoreError::PageError(PageError::RowNotFound))
    ));
    assert!(matches!(
        ledger.write_row(600, &MiniRow::new(0)),
        Err(DatastoreError::PageError(PageError::PageIdOutOfBounds))
    ));
    assert_eq!(ledger.bytes(), before);
}

#[test]
fn page_count_is_ceiling_of_rows() {
    let mut ledger = fresh_mini_ledger();
    let page_sz = ledger_rs::page::page_sz::<MiniRow>() as usize;
    for n in 0..10u32 {
        ledger.insert(&MiniRow::new(n)).unwrap();
        let rows = ledger.num_rows().unwrap();
        assert_eq!(rows, n + 1);
        let pages = ledger.access_header().unwrap().num_pages();
        assert_eq!(pages, rows.div_ceil(3));
        // The image is always the header plus whole pages.
        assert_eq!(ledger.bytes().len(), 68 + pages as usize * page_sz);
    }
}

#[test]
fn attach_rejects_corrupt_images() {
    let mut ledger = fresh_mini_ledger();
    ledger.insert(&MiniRow::new(1)).unwrap();
    let good = ledger.bytes();
    assert!(DataLedgerStore::<MiniRow>::attach(good.clone()).is_ok());
    // Too short.
    assert!(matches!(
        DataLedgerStore::<MiniRow>::attach(good[..10].to_vec()),
        Err(DatastoreError::CorruptImage)
    ));
    // Truncated behind the header.
    assert!(matches!(
        DataLedgerStore::<MiniRow>::attach(good[..70].to_vec()),
        Err(DatastoreError::CorruptImage)
    ));
    // A page-count that does not match the length.
    let mut bad = good.clone();
    bad[42] = 9;
    assert!(DataLedgerStore::<MiniRow>::attach(bad).is_err());
    // A corrupted slot directory entry.
    let mut bad = good.clone();
    bad[68 + 16] = 0xee;
    assert!(DataLedgerStore::<MiniRow>::attach(bad).is_err());
    // A non-zero reserved byte in the ledger header.
    let mut bad = good;
    bad[60] = 1;
    assert!(DataLedgerStore::<MiniRow>::attach(bad).is_err());
}

#[test]
fn row_id_arithmetic_round_trips() {
    // MiniRow pages hold three rows.
    for pid in 0..5u32 {
        for slot in 0..3u32 {
            let id = RowQuery::<MiniRow>::to_row_id(pid, slot);
            assert_eq!(id, pid * 3 + slot);
            let q = RowQuery::<MiniRow>::from_row_id(id);
            assert_eq!((q.page_id, q.page_row_n), (pid, slot));
        }
    }
}

#[test]
fn allocate_new_page_leaves_cursor_to_caller() {
    let mut ledger = fresh_mini_ledger();
    for n in 0..3u32 {
        ledger.insert(&MiniRow::new(n)).unwrap();
    }
    let page_sz = ledger_rs::page::page_sz::<MiniRow>() as usize;
    let pid = ledger.allocate_new_page().unwrap();
    assert_eq!(pid, 1);
    // The page is allocated and the image grows, the stored rows survive,
    // and the cursor has not moved: bumping it is the caller's job.
    assert_eq!(ledger.num_rows().unwrap(), 3);
    assert_eq!(ledger.access_header().unwrap().num_pages(), 2);
    assert_eq!(ledger.access_header().unwrap().page_cursor(), 0);
    assert_eq!(ledger.bytes().len(), 68 + 2 * page_sz);
    // The fresh page is empty.
    assert_eq!(ledger.clone_page(1).unwrap().access_header().unwrap().slot_count(), 0);
    // Once the caller moves the cursor, inserts land on the new page.
    ledger.header.inc_page_cursor();
    let id = ledger.insert(&MiniRow::new(3)).unwrap();
    assert_eq!(id, 3);
    assert_eq!(ledger.num_rows().unwrap(), 4);
}
