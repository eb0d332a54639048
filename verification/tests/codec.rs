use astro_rs::bitpix::Bitpix;
use astro_rs::error::FitsHeaderError;
use astro_rs::sesame::{SesameConfig, SesameDatabase};
use astro_rs::tform::{TForm, TFormType};
use astro_rs::value::FitsHeaderValue;

#[test]
fn test_bool_codec() {
    let t: bool = FitsHeaderValue::from_bytes(b"T".to_vec()).unwrap();
    assert!(t);
    let f: bool = FitsHeaderValue::from_bytes(b"F".to_vec()).unwrap();
    assert!(!f);
    let bad: Result<bool, FitsHeaderError> = FitsHeaderValue::from_bytes(b"A".to_vec());
    match bad.unwrap_err() {
        FitsHeaderError::DeserializationError { found, .. } => assert_eq!(found, b"A".to_vec()),
        _ => panic!("expected a deserialization error"),
    }
    // a wrong byte count is a length error
    let bad: Result<bool, FitsHeaderError> = FitsHeaderValue::from_bytes(b"TT".to_vec());
    match bad.unwrap_err() {
        FitsHeaderError::InvalidLength { expected, found, .. } => {
            assert_eq!(expected, 1);
            assert_eq!(found, 2);
        }
        _ => panic!("expected an invalid-length error"),
    }
    let bad: Result<bool, _> = FitsHeaderValue::from_bytes(b"true".to_vec());
    assert!(bad.is_err());

    // encode places the letter at field column 20 (0-indexed 19),
    // everything else space
    let field = t.to_bytes();
    assert_eq!(field.len(), 70);
    for (i, b) in field.iter().enumerate() {
        if i == 19 {
            assert_eq!(*b, b'T');
        } else {
            assert_eq!(*b, b' ');
        }
    }
}

#[test]
fn test_uint_codec() {
    let v: u8 = FitsHeaderValue::from_bytes(b"255".to_vec()).unwrap();
    assert_eq!(v, 255);
    let bad: Result<u8, _> = FitsHeaderValue::from_bytes(b"300".to_vec());
    assert!(bad.is_err());

    let v: u16 = FitsHeaderValue::from_bytes(b"65535".to_vec()).unwrap();
    assert_eq!(v, 65535);
    let bad: Result<u16, _> = FitsHeaderValue::from_bytes(b"66000".to_vec());
    assert!(bad.is_err());

    let v: u32 = FitsHeaderValue::from_bytes(b"4294967295".to_vec()).unwrap();
    assert_eq!(v, 4294967295);
    let bad: Result<u32, _> = FitsHeaderValue::from_bytes(b"Not a number".to_vec());
    assert!(bad.is_err());

    let field = v.to_bytes();
    assert_eq!(&field[10..20], b"4294967295");
    assert_eq!(&field[0..10], vec![b' '; 10].as_slice());
    assert_eq!(&field[20..70], vec![b' '; 50].as_slice());
    let zero: u8 = 0;
    let field = zero.to_bytes();
    assert_eq!(field[19], b'0');
    assert_eq!(&field[0..19], vec![b' '; 19].as_slice());
}

#[test]
fn test_string_codec_escaping() {
    let s: String = FitsHeaderValue::from_bytes(b"'this ''includes'' quotes'".to_vec()).unwrap();
    assert_eq!(s, "this 'includes' quotes");

    // re-encoding and re-decoding reproduces the same logical string
    let field = s.to_bytes();
    assert_eq!(field.len(), 70);
    let trimmed: Vec<u8> = {
        let mut v = field.clone();
        while v.last() == Some(&b' ') {
            v.pop();
        }
        v
    };
    let again: String = FitsHeaderValue::from_bytes(trimmed).unwrap();
    assert_eq!(again, s);

    // non-text bytes are refused
    let bad: Result<String, _> = FitsHeaderValue::from_bytes(vec![0, 159, 146, 150]);
    assert!(bad.is_err());

    // an empty text still spans eight content columns
    let empty = String::new();
    let field = empty.to_bytes();
    assert_eq!(&field[0..10], b"'        '");
}

#[test]
fn test_size_tag_codec() {
    let v: Bitpix = FitsHeaderValue::from_bytes(b"-32".to_vec()).unwrap();
    assert_eq!(v, Bitpix::F32);
    assert_eq!(v.value(), 32);

    let bad: Result<Bitpix, _> = FitsHeaderValue::from_bytes(b"64".to_vec());
    assert!(bad.is_err());

    let all = [
        (&b"8"[..], Bitpix::U8, 8),
        (&b"16"[..], Bitpix::I16, 16),
        (&b"32"[..], Bitpix::I32, 32),
        (&b"-32"[..], Bitpix::F32, 32),
        (&b"-64"[..], Bitpix::F64, 64),
    ];
    for (lit, tag, width) in all {
        let v: Bitpix = FitsHeaderValue::from_bytes(lit.to_vec()).unwrap();
        assert_eq!(v, tag);
        assert_eq!(v.value(), width);
        // encode ends at field column 20
        let field = v.to_bytes();
        assert_eq!(&field[20 - lit.len()..20], lit);
    }
}

#[test]
fn test_tform_codec() {
    let v: TForm = FitsHeaderValue::from_bytes(b"'1D      '".to_vec()).unwrap();
    assert_eq!(v.r, 1);
    assert_eq!(v.t, TFormType::F64);
    assert_eq!(v.value(), 8);

    let v: TForm = FitsHeaderValue::from_bytes(b"'2I      '".to_vec()).unwrap();
    assert_eq!(v.value(), 4);

    let v: TForm = FitsHeaderValue::from_bytes(b"'1A comment'".to_vec()).unwrap();
    assert_eq!(v.value(), 1);
    assert_eq!(v.a, " comment");

    // a missing repeat count falls back to 1
    let v: TForm = FitsHeaderValue::from_bytes(b"'M       '".to_vec()).unwrap();
    assert_eq!(v.r, 1);
    assert_eq!(v.t, TFormType::C128);
    assert_eq!(v.value(), 16);

    let bad: Result<TForm, _> = FitsHeaderValue::from_bytes(b"U".to_vec());
    assert!(bad.is_err());
    let bad: Result<TForm, _> = FitsHeaderValue::from_bytes(b"nonsense".to_vec());
    assert!(bad.is_err());

    // serialization: repeat count, letter, annotation, closing quote
    // at column 10 at the earliest
    let v: TForm = FitsHeaderValue::from_bytes(b"'1D      '".to_vec()).unwrap();
    assert_eq!(&v.to_bytes()[0..10], b"'1D      '");
    let v: TForm = FitsHeaderValue::from_bytes(b"'1A comment'".to_vec()).unwrap();
    assert_eq!(&v.to_bytes()[0..12], b"'1A comment'");
}

#[test]
fn test_sesame_options() {
    assert_eq!(SesameDatabase::All.to_str(), "A");
    assert_eq!(SesameDatabase::Simbad.to_str(), "S");
    assert_eq!(SesameDatabase::Ned.to_str(), "N");
    assert_eq!(SesameDatabase::Vizier.to_str(), "V");

    assert_eq!(
        SesameDatabase::parse(&String::from("ViZieR")),
        Some(SesameDatabase::Vizier)
    );
    assert_eq!(
        SesameDatabase::parse(&String::from("a")),
        Some(SesameDatabase::All)
    );
    assert_eq!(SesameDatabase::parse(&String::from("nowhere")), None);

    let config = SesameConfig::default();
    assert_eq!(config.database, SesameDatabase::All);
    assert_eq!(config.urls.len(), 2);
    assert!(SesameConfig::from_parts(SesameDatabase::Ned, Vec::new()).is_err());
    let one = SesameConfig::from_parts(
        SesameDatabase::Ned,
        vec![String::from("http://cdsweb.u-strasbg.fr/cgi-bin/nph-sesame/")],
    )
    .unwrap();
    assert_eq!(one.urls.len(), 1);
}
