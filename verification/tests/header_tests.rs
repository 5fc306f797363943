//! Tests of the header codecs, names, descriptions, and flag masks.

use ledger_rs::header::{
    HeaderFlags, LedgerDescription, LedgerDescriptionError, LedgerHeader, LedgerName,
    LedgerNameError, PageHeader,
};
use ledger_rs::utils::BitMask;

#[test]
fn page_header_codec_round_trip() {
    let mut h = PageHeader::new(None, 294928);
    h.set_slot_count(17);
    h.set_free_start(16 + 17 * 4);
    h.set_free_end(294928 - 17 * 72);
    let bytes = h.serialize();
    assert_eq!(bytes.len(), 16);
    let back = PageHeader::deserialize(&bytes).unwrap();
    assert_eq!(back.slot_count(), 17);
    assert_eq!(back.free_start(), 16 + 17 * 4);
    assert_eq!(back.free_end(), 294928 - 17 * 72);
    assert_eq!(back.page_type, 0);
}

#[test]
fn page_header_layout_is_little_endian() {
    let mut h = PageHeader::new(None, 0);
    h.set_slot_count(0x0403_0201);
    h.set_free_start(0x1611_0807);
    h.set_free_end(0x2019_1817);
    let bytes = h.serialize();
    assert_eq!(&bytes[4..8], &[0x01, 0x02, 0x03, 0x04]);
    assert_eq!(&bytes[8..12], &[0x07, 0x08, 0x11, 0x16]);
    assert_eq!(&bytes[12..16], &[0x17, 0x18, 0x19, 0x20]);
}

#[test]
fn page_header_new_starts_empty() {
    let h = PageHeader::new(None, 4096);
    assert_eq!(h.slot_count(), 0);
    assert_eq!(h.free_start(), 16);
    assert_eq!(h.free_end(), 4096);
    assert_eq!(h.free_space(), 4080);
}

#[test]
fn page_header_initial_flags() {
    let h = PageHeader::new(Some(vec![HeaderFlags::Private]), 64);
    assert!(h.flags.is_set(HeaderFlags::Private));
    assert!(!h.flags.is_set(HeaderFlags::DeleteMe));
    let h = PageHeader::new(Some(vec![HeaderFlags::Private, HeaderFlags::DeleteMe]), 64);
    assert_eq!(h.flags.bits(), 3);
}

#[test]
fn page_header_deserialize_rejects_wrong_length() {
    assert_eq!(
        PageHeader::deserialize(&[0u8; 15]).unwrap_err(),
        ledger_rs::utils::PageError::ConversionError
    );
    assert!(PageHeader::deserialize(&[0u8; 17]).is_err());
    assert!(PageHeader::deserialize(&[0u8; 16]).is_ok());
}

#[test]
fn ledger_header_codec_round_trip() {
    let name = LedgerName::new(*b"Docs     ");
    let desc = LedgerDescription::new("My documents");
    let mut h = LedgerHeader::new(name, desc, None);
    h.set_num_pages(3);
    h.set_rows_per_page(4096);
    h.set_page_cursor(2);
    let bytes = h.serialize();
    assert_eq!(bytes.len(), 68);
    let back = LedgerHeader::deserialize(&bytes).unwrap();
    assert_eq!(back.num_pages(), 3);
    assert_eq!(back.rows_per_page(), 4096);
    assert_eq!(back.page_cursor(), 2);
    assert_eq!(back.name(), "RG9jcyAgICAg");
}

#[test]
fn ledger_header_cursor_moves() {
    let mut h = LedgerHeader::new(
        LedgerName::new([0; 9]),
        LedgerDescription::new(""),
        None,
    );
    assert_eq!(h.page_cursor(), 0);
    h.inc_page_cursor();
    h.inc_page_cursor();
    assert_eq!(h.page_cursor(), 2);
    h.dec_page_cursor();
    assert_eq!(h.page_cursor(), 1);
}

#[test]
fn ledger_header_num_rows_formula() {
    let mut h = LedgerHeader::new(
        LedgerName::new([0; 9]),
        LedgerDescription::new(""),
        None,
    );
    h.set_num_pages(4);
    // Three full pages of three rows each, plus two in the tail.
    assert_eq!(h.num_rows(3, 2), 11);
    h.set_num_pages(1);
    assert_eq!(h.num_rows(3, 0), 0);
}

#[test]
fn ledger_name_base64_round_trip() {
    let name = LedgerName::new(*b"AAAAAAAAA");
    // Nine bytes render as exactly twelve unpadded URL-safe characters.
    assert_eq!(name.to_string(), "QUFBQUFBQUFB");
    let back = LedgerName::from_string("QUFBQUFBQUFB").unwrap();
    assert_eq!(back.as_bytes(), name.as_bytes());
}

#[test]
fn ledger_name_from_text_pads_and_truncates() {
    let name = LedgerName::from_text("Docs");
    assert_eq!(name.as_bytes().as_slice(), b"Docs     ");
    let name = LedgerName::from_text("Documents2024");
    assert_eq!(name.as_bytes().as_slice(), b"Documents");
}

#[test]
fn ledger_name_parse_errors() {
    assert_eq!(
        LedgerName::from_string("!!!not base64!!!"),
        Err(LedgerNameError::InvalidBase64)
    );
    // "QUFB" decodes to three bytes, not nine.
    assert_eq!(LedgerName::from_string("QUFB"), Err(LedgerNameError::InvalidLength(3)));
}

#[test]
fn ledger_description_pads_and_truncates() {
    let d = LedgerDescription::new("hi");
    assert_eq!(d.as_bytes().len(), 32);
    assert_eq!(&d.as_bytes()[..2], b"hi");
    assert!(d.as_bytes()[2..].iter().all(|&b| b == b' '));
    let long = "x".repeat(50);
    let d = LedgerDescription::new(&long);
    assert_eq!(d.as_bytes().len(), 32);
    assert!(d.as_bytes().iter().all(|&b| b == b'x'));
    assert_eq!(d.to_string().len(), 43);
}

#[test]
fn ledger_description_parse_errors() {
    assert_eq!(
        LedgerDescription::from_string("???"),
        Err(LedgerDescriptionError::InvalidBase64)
    );
    assert_eq!(
        LedgerDescription::from_string("QUFB"),
        Err(LedgerDescriptionError::InvalidLength(3))
    );
    let d = LedgerDescription::new("round trip");
    let s = d.to_string();
    let back = LedgerDescription::from_string(&s).unwrap();
    assert_eq!(back.as_bytes(), d.as_bytes());
}

#[test]
fn bitmask_sets_and_clears() {
    let mut mask: BitMask<HeaderFlags> = BitMask::new();
    assert_eq!(mask.bits(), 0);
    assert!(!mask.is_set(HeaderFlags::Private));
    mask.set(&HeaderFlags::Private, true);
    assert!(mask.is_set(HeaderFlags::Private));
    mask.set(&HeaderFlags::DeleteMe, true);
    assert_eq!(mask.bits(), 3);
    mask.set(&HeaderFlags::Private, false);
    assert!(!mask.is_set(HeaderFlags::Private));
    assert!(mask.is_set(HeaderFlags::DeleteMe));
    assert_eq!(BitMask::<HeaderFlags>::from_bits(2).bits(), 2);
}
