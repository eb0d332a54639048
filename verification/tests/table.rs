use astro_rs::binary_table_hdu;
use astro_rs::hdu::Hdu;
use astro_rs::header::FitsHeader;
use astro_rs::tform::{FitsColumn, TForm, TFormType};
use astro_rs::value::FitsHeaderValue;

fn pad_card(text: &str) -> Vec<u8> {
    let mut v = text.as_bytes().to_vec();
    assert!(v.len() <= 80);
    v.resize(80, b' ');
    v
}

fn pad_block(mut v: Vec<u8>) -> Vec<u8> {
    let rem = v.len() % 2880;
    if rem != 0 {
        v.resize(v.len() + 2880 - rem, b' ');
    }
    v
}

#[test]
fn test_column_extraction() {
    // row length 12, 2 rows, one float64 column at byte offset 4:
    // values come from bytes [4..12] of row 0 and [16..24] of the
    // whole buffer
    let mut data = vec![0u8; 24];
    data[4..12].copy_from_slice(&3.5f64.to_be_bytes());
    data[16..24].copy_from_slice(&(-7.25f64).to_be_bytes());

    let tform: TForm = FitsHeaderValue::from_bytes(b"'1D      '".to_vec()).unwrap();
    let col = tform.create_column(&data, 4, 12, 2).unwrap();
    match col {
        FitsColumn::F64Bits(bits) => {
            assert_eq!(bits.len(), 2);
            assert_eq!(f64::from_bits(bits[0]), 3.5);
            assert_eq!(f64::from_bits(bits[1]), -7.25);
        }
        _ => panic!("expected a float64 column"),
    }
}

#[test]
fn test_column_unsupported_kinds_fail() {
    let data = vec![0u8; 64];
    let bit = TForm {
        r: 1,
        t: TFormType::Bit,
        a: String::new(),
    };
    assert!(bit.create_column(&data, 0, 8, 2).is_none());
    let complex = TForm {
        r: 1,
        t: TFormType::C64,
        a: String::new(),
    };
    assert!(complex.create_column(&data, 0, 8, 2).is_none());
    // an element falling outside the buffer fails rather than reading
    let wide = TForm {
        r: 1,
        t: TFormType::F64,
        a: String::new(),
    };
    assert!(wide.create_column(&data, 60, 8, 2).is_none());
}

#[test]
fn test_column_i16_values() {
    let mut data = vec![0u8; 8];
    data[0..2].copy_from_slice(&300i16.to_be_bytes());
    data[2..4].copy_from_slice(&(-2i16).to_be_bytes());
    data[4..6].copy_from_slice(&5i16.to_be_bytes());
    data[6..8].copy_from_slice(&(-600i16).to_be_bytes());
    let tform = TForm {
        r: 2,
        t: TFormType::I16,
        a: String::new(),
    };
    match tform.create_column(&data, 0, 4, 2).unwrap() {
        FitsColumn::I16(v) => assert_eq!(v, vec![300, -2, 5, -600]),
        _ => panic!("expected a 16 bit column"),
    }
}

#[test]
fn test_column_by_name_and_index() {
    let mut bytes = Vec::new();
    bytes.extend_from_slice(&pad_card("XTENSION= 'BINTABLE'"));
    bytes.extend_from_slice(&pad_card("NAXIS   =                    2"));
    bytes.extend_from_slice(&pad_card("NAXIS1  =                    6"));
    bytes.extend_from_slice(&pad_card("NAXIS2  =                    2"));
    bytes.extend_from_slice(&pad_card("TTYPE1  = 'energy  '"));
    bytes.extend_from_slice(&pad_card("TFORM1  = '1I      '"));
    bytes.extend_from_slice(&pad_card("TTYPE2  = 'count   '"));
    bytes.extend_from_slice(&pad_card("TFORM2  = '1J      '"));
    bytes.extend_from_slice(&pad_card("END"));
    let header = FitsHeader::from_bytes(pad_block(bytes)).unwrap();
    // two rows of one i16 then one i32
    let mut data = Vec::new();
    data.extend_from_slice(&100i16.to_be_bytes());
    data.extend_from_slice(&1000i32.to_be_bytes());
    data.extend_from_slice(&200i16.to_be_bytes());
    data.extend_from_slice(&2000i32.to_be_bytes());
    let hdu = Hdu::from_parts(header, data);

    // lookup by name is ASCII-case-insensitive
    match binary_table_hdu::column_by_name(&hdu, "ENERGY").unwrap() {
        FitsColumn::I16(v) => assert_eq!(v, vec![100, 200]),
        _ => panic!("expected a 16 bit column"),
    }
    match binary_table_hdu::column_by_name(&hdu, "count").unwrap() {
        FitsColumn::I32(v) => assert_eq!(v, vec![1000, 2000]),
        _ => panic!("expected a 32 bit column"),
    }
    assert!(binary_table_hdu::column_by_name(&hdu, "missing").is_none());

    match binary_table_hdu::column_by_index(&hdu, 2).unwrap() {
        FitsColumn::I32(v) => assert_eq!(v, vec![1000, 2000]),
        _ => panic!("expected a 32 bit column"),
    }
    assert!(binary_table_hdu::column_by_index(&hdu, 3).is_none());
}

#[test]
fn test_table_builders() {
    let hdu = binary_table_hdu::default();
    assert_eq!(hdu.header.cards.len(), 9);
    let hdu = astro_rs::ascii_table_hdu::default();
    assert_eq!(hdu.header.cards.len(), 9);
    let bytes = hdu.to_bytes();
    assert_eq!(bytes.len(), 2880);
    assert_eq!(&bytes[0..20], b"XTENSION= 'TABLE   '");
}
