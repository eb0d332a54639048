use astro_rs::bitpix::Bitpix;
use astro_rs::hdu::{computed_payload_len, Hdu};
use astro_rs::hdu_list::HduList;
use astro_rs::header::{FitsHeader, FitsHeaderCard};
use astro_rs::keyword::{
    bitpix_keyword, end_keyword, extname_keyword, naxis_keyword, simple_keyword,
    FitsHeaderKeyword,
};
use astro_rs::primary_hdu;
use astro_rs::image_hdu;
use astro_rs::value::FitsHeaderValue;
use astro_rs::hdu::FitsDataCollection;

fn pad_card(text: &str) -> Vec<u8> {
    let mut v = text.as_bytes().to_vec();
    assert!(v.len() <= 80);
    v.resize(80, b' ');
    v
}

fn pad_block(mut v: Vec<u8>) -> Vec<u8> {
    let rem = v.len() % 2880;
    if rem != 0 {
        v.resize(v.len() + 2880 - rem, b' ');
    }
    v
}

fn minimal_primary_block() -> Vec<u8> {
    let mut bytes = Vec::new();
    bytes.extend_from_slice(&pad_card("SIMPLE  =                    T"));
    bytes.extend_from_slice(&pad_card("BITPIX  =                    8"));
    bytes.extend_from_slice(&pad_card("NAXIS   =                    0"));
    bytes.extend_from_slice(&pad_card("END"));
    pad_block(bytes)
}

#[test]
fn test_hdu_list_new() {
    let mut hdu_list = HduList::default();
    hdu_list.push(primary_hdu::default());
    hdu_list.push(image_hdu::default());

    assert!(hdu_list.is_header_valid().unwrap());
}

#[test]
fn test_minimal_header_end_to_end() {
    // a minimal two-card-plus-terminator primary header at the start
    // of a buffer with no payload
    let bytes = minimal_primary_block();
    let mut hdu_list = HduList::from_bytes(bytes.clone()).unwrap();
    let first = hdu_list.first_mut().unwrap();
    let kw = FitsHeaderKeyword::from_raw(bitpix_keyword());
    let card = first.header.get_card(&kw).unwrap();
    let value: Bitpix = card.get_value().unwrap();
    assert_eq!(value, Bitpix::U8);
    assert_eq!(value.value(), 8);
    // the header round-trips to the identical padded 2880-byte block
    assert_eq!(hdu_list.to_bytes(), bytes);
}

#[test]
fn test_container_round_trip() {
    // a primary HDU with a small payload, followed by trailing padding
    let mut bytes = Vec::new();
    bytes.extend_from_slice(&pad_card("SIMPLE  =                    T / comment here"));
    bytes.extend_from_slice(&pad_card("BITPIX  =                    8"));
    bytes.extend_from_slice(&pad_card("NAXIS   =                    1"));
    bytes.extend_from_slice(&pad_card("NAXIS1  =                   16"));
    bytes.extend_from_slice(&pad_card("END"));
    bytes = pad_block(bytes);
    let mut payload = vec![7u8; 16];
    payload.resize(2880, 0);
    bytes.extend_from_slice(&payload);

    let mut hdu_list = HduList::from_bytes(bytes.clone()).unwrap();
    assert!(hdu_list.get_by_index(0).is_some());
    assert!(hdu_list.get_by_index(1).is_none());
    assert_eq!(hdu_list.to_bytes(), bytes);
}

#[test]
fn test_header_terminator_scan() {
    // filler cards between the last true card and the terminator are
    // skipped by the backward scan
    let mut bytes = Vec::new();
    bytes.extend_from_slice(&pad_card("SIMPLE  =                    T"));
    bytes.extend_from_slice(&pad_card("NAXIS   =                    0"));
    bytes.extend_from_slice(&pad_card("END"));
    let complete = pad_block(bytes.clone());
    let mut hdu_list = HduList::from_bytes(complete).unwrap();
    assert!(hdu_list.get_by_index(0).is_some());

    // a block that ends in a non-terminator keyword needs another
    // block, and an exhausted source yields nothing
    let mut unterminated = Vec::new();
    for _ in 0..36 {
        unterminated.extend_from_slice(&pad_card("COMMENT   filler"));
    }
    let mut hdu_list = HduList::from_bytes(unterminated).unwrap();
    assert!(hdu_list.get_by_index(0).is_none());

    // a second block carrying the terminator completes the header
    let mut two_blocks = Vec::new();
    for _ in 0..36 {
        two_blocks.extend_from_slice(&pad_card("COMMENT   filler"));
    }
    two_blocks.extend_from_slice(&pad_card("NAXIS   =                    0"));
    two_blocks.extend_from_slice(&pad_card("END"));
    let two_blocks = pad_block(two_blocks);
    assert_eq!(two_blocks.len(), 5760);
    let mut hdu_list = HduList::from_bytes(two_blocks).unwrap();
    assert!(hdu_list.get_by_index(0).is_some());
}

#[test]
fn test_payload_length_derivation() {
    // axis-count 2, per-axis sizes [1600, 1600], size tag -32
    let mut bytes = Vec::new();
    bytes.extend_from_slice(&pad_card("SIMPLE  =                    T"));
    bytes.extend_from_slice(&pad_card("BITPIX  =                  -32"));
    bytes.extend_from_slice(&pad_card("NAXIS   =                    2"));
    bytes.extend_from_slice(&pad_card("NAXIS1  =                 1600"));
    bytes.extend_from_slice(&pad_card("NAXIS2  =                 1600"));
    bytes.extend_from_slice(&pad_card("END"));
    let header = FitsHeader::from_bytes(pad_block(bytes)).unwrap();
    assert_eq!(computed_payload_len(&header), 1600 * 1600 * 4);
}

#[test]
fn test_get_dimensions() {
    let mut bytes = Vec::new();
    bytes.extend_from_slice(&pad_card("SIMPLE  =                    T"));
    bytes.extend_from_slice(&pad_card("BITPIX  =                    8"));
    bytes.extend_from_slice(&pad_card("NAXIS   =                    2"));
    bytes.extend_from_slice(&pad_card("NAXIS1  =                 1600"));
    bytes.extend_from_slice(&pad_card("NAXIS2  =                 2925"));
    bytes.extend_from_slice(&pad_card("END"));
    let header = FitsHeader::from_bytes(pad_block(bytes)).unwrap();
    let hdu = Hdu::from_parts(header, Vec::new());
    assert_eq!(hdu.get_dimensions(), vec![1600, 2925]);
}

#[test]
fn test_get_by_name() {
    let mut bytes = Vec::new();
    bytes.extend_from_slice(&pad_card("SIMPLE  =                    T"));
    bytes.extend_from_slice(&pad_card("NAXIS   =                    0"));
    bytes.extend_from_slice(&pad_card("END"));
    let mut container = pad_block(bytes);
    let mut ext = Vec::new();
    ext.extend_from_slice(&pad_card("XTENSION= 'IMAGE   '"));
    ext.extend_from_slice(&pad_card("EXTNAME = 'EVENTS  '"));
    ext.extend_from_slice(&pad_card("NAXIS   =                    0"));
    ext.extend_from_slice(&pad_card("END"));
    container.extend_from_slice(&pad_block(ext));

    let mut hdu_list = HduList::from_bytes(container).unwrap();
    assert!(hdu_list.get_by_name("MISSING").is_none());
    let hdu = hdu_list.get_by_name("EVENTS").unwrap();
    assert_eq!(hdu.get_name(), "EVENTS");
    // the name comparison disregards ASCII case
    assert!(hdu_list.get_by_name("events").is_some());
    assert!(hdu_list.get_by_name("Events").is_some());
}

#[test]
fn test_header_block_alignment() {
    // serialized headers are always whole records
    let hdu = primary_hdu::default();
    let header_bytes = hdu.header.to_bytes();
    assert_eq!(header_bytes.len() % 2880, 0);
    assert_eq!(hdu.to_bytes().len() % 2880, 0);

    // payloads are zero-filled to whole records
    let mut hdu = primary_hdu::default();
    hdu.set_data_raw(vec![1u8; 100]);
    let all = hdu.to_bytes();
    assert_eq!(all.len() % 2880, 0);
    assert_eq!(all[2880 + 99], 1);
    assert_eq!(all[2880 + 100], 0);
}

#[test]
fn test_failed_set_leaves_card_unchanged() {
    let bytes = pad_card("SIMPLE  =                    T / FITS STANDARD");
    let mut card = FitsHeaderCard::from_bytes(&bytes);
    // an oversized comment is refused and the card keeps its bytes
    let long_comment = "x".repeat(100);
    assert!(card.set_comment(Some(long_comment)).is_err());
    assert_eq!(card.to_bytes(), bytes);
    // an unencodable value is refused likewise
    let huge_value = "y".repeat(100);
    assert!(card.set_value(huge_value).is_err());
    assert_eq!(card.to_bytes(), bytes);
    // the card still reads as before
    let v: bool = card.get_value().unwrap();
    assert!(v);
    assert_eq!(card.get_comment().unwrap(), "FITS STANDARD");
}

#[test]
fn test_card_width() {
    let card = FitsHeaderCard::from_bytes(&pad_card("SIMPLE  =                    T"));
    assert_eq!(card.to_bytes().len(), 80);
    let card = FitsHeaderCard::from_bytes(&pad_card("COMMENT   anything at all"));
    assert_eq!(card.to_bytes().len(), 80);
}

#[test]
fn test_keyword_padding() {
    let from_text = FitsHeaderKeyword::from_text("SIMPLE").unwrap();
    assert!(from_text.matches_raw(&simple_keyword()));
    assert!(from_text.matches_str("SIMPLE"));
    let bitpix = FitsHeaderKeyword::from_raw(bitpix_keyword());
    assert!(!from_text.matches_keyword(&bitpix));
    assert!(FitsHeaderKeyword::from_text("TOOLONGKEYWORD").is_none());
}

#[test]
fn test_keyword_numeric_suffix() {
    let mut naxis = FitsHeaderKeyword::from_raw(naxis_keyword());
    naxis.append_number(1);
    assert!(naxis.matches_raw(b"NAXIS1  "));
    naxis.append_number(2);
    assert!(naxis.matches_raw(b"NAXIS2  "));

    let mut tform = FitsHeaderKeyword::from_text("TFORM").unwrap();
    tform.append_number(100);
    assert!(tform.matches_raw(b"TFORM100"));
    tform.append_number(10);
    assert!(tform.matches_raw(b"TFORM10 "));
}

#[test]
fn test_set_card_and_comment() {
    let mut header = FitsHeader::new();
    let kw = FitsHeaderKeyword::from_raw(simple_keyword());
    header.set_card(kw, true, None).unwrap();
    let card = header.get_card(&kw).unwrap();
    let v: bool = card.get_value().unwrap();
    assert!(v);

    header
        .set_card(kw, false, Some(String::from("FITS STANDARD")))
        .unwrap();
    let card = header.get_card(&kw).unwrap();
    let v: bool = card.get_value().unwrap();
    assert!(!v);
    assert_eq!(card.get_comment().unwrap(), "FITS STANDARD");

    // the comment is retained when only the value is replaced
    header.set_value(kw, true).unwrap();
    let card = header.get_card(&kw).unwrap();
    assert_eq!(card.get_comment().unwrap(), "FITS STANDARD");

    // a missing card leaves set_comment without effect
    let missing = FitsHeaderKeyword::from_raw(extname_keyword());
    header.set_comment(missing, Some(String::from("nothing"))).unwrap();
    assert!(header.get_card(&missing).is_none());
}

#[test]
fn test_set_card_keeps_terminator_last() {
    let mut hdu = primary_hdu::default();
    let kw = FitsHeaderKeyword::from_text("EXTEND").unwrap();
    hdu.header.set_card(kw, true, None).unwrap();
    let last = hdu.header.cards.last().unwrap();
    assert!(last.keyword().matches_raw(&end_keyword()));
}

#[test]
fn test_oversized_comment_rejected() {
    let mut header = FitsHeader::new();
    let kw = FitsHeaderKeyword::from_raw(simple_keyword());
    let long_comment = "x".repeat(100);
    assert!(header.set_card(kw, true, Some(long_comment)).is_err());
}

#[test]
fn test_header_invalid_length() {
    let err = FitsHeader::from_bytes(vec![b' '; 81]).unwrap_err();
    match err {
        astro_rs::error::FitsHeaderError::InvalidLength { found, .. } => {
            assert_eq!(found, 81);
        }
        _ => panic!("expected an invalid-length error"),
    }
}

#[test]
fn test_data_collections_round_trip() {
    let values: Vec<i16> = vec![-3, 0, 1, 258];
    let bytes = values.to_bytes();
    assert_eq!(bytes, vec![255, 253, 0, 0, 0, 1, 1, 2]);
    let back = <Vec<i16> as FitsDataCollection>::from_bytes(&bytes).unwrap();
    assert_eq!(back, values);

    // an odd byte count is refused rather than truncated
    assert!(<Vec<i16> as FitsDataCollection>::from_bytes(&vec![0u8; 3]).is_err());

    // float payloads travel as their big-endian bit patterns
    let f = 12.5f32;
    let mut hdu = primary_hdu::default();
    hdu.set_data_raw(f.to_be_bytes().to_vec());
    let bits: Vec<u32> = hdu.get_data().unwrap();
    assert_eq!(f32::from_bits(bits[0]), 12.5);

    let d = -2.25f64;
    hdu.set_data_raw(d.to_be_bytes().to_vec());
    let bits: Vec<u64> = hdu.get_data().unwrap();
    assert_eq!(f64::from_bits(bits[0]), -2.25);

    // a typed collection set through the HDU reads back unchanged
    let rows: Vec<i32> = vec![65_000, -70_000];
    hdu.set_data(&rows);
    assert_eq!(hdu.data_raw().len(), 8);
    let back: Vec<i32> = hdu.get_data().unwrap();
    assert_eq!(back, rows);
}

#[test]
fn test_is_header_valid_false_cases() {
    // an empty list has no header to validate
    let mut hdu_list = HduList::new();
    assert!(!hdu_list.is_header_valid().unwrap());

    // a first HDU without the first-section marker is invalid
    let mut bytes = Vec::new();
    bytes.extend_from_slice(&pad_card("BITPIX  =                  -32 / FITS BITS/PIXEL"));
    bytes.extend_from_slice(&pad_card("END"));
    let mut hdu_list = HduList::from_bytes(pad_block(bytes)).unwrap();
    assert!(!hdu_list.is_header_valid().unwrap());
}

#[test]
fn test_insert_and_iterate() {
    let mut hdu_list = HduList::default();
    // inserting past what the source can provide fails loudly
    assert!(hdu_list.insert(1, image_hdu::default()).is_err());

    hdu_list.push(primary_hdu::default());
    hdu_list.insert(1, image_hdu::default()).unwrap();
    assert_eq!(hdu_list.iter_mut().len(), 2);
}

#[test]
fn test_comment_with_marker_in_text() {
    let bytes = pad_card("BITPIX  =                  -32 / FITS BITS/PIXEL");
    let mut card = FitsHeaderCard::from_bytes(&bytes);
    assert_eq!(card.get_comment().unwrap(), "FITS BITS/PIXEL");
    let value: Bitpix = card.get_value().unwrap();
    assert_eq!(value, Bitpix::F32);
    // the card still serializes to its original 80 bytes
    assert_eq!(card.to_bytes(), bytes);
}
