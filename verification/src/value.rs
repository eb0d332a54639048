//! The typed value framework for header cards: a closed set of value
//! kinds, and a codec trait that maps each kind to and from the fixed
//! 70-byte text field that follows the `= ` marker of a valued card.
//!
//! Text is ASCII by design: the string codec accepts only bytes below
//! 128, and refuses anything else as a deserialization error.

use vstd::prelude::*;

use vstd::string::{StringExecFns, StringExecFnsIsAscii};

use crate::bitpix::Bitpix;
use crate::bytesutil::{all_ascii, dec_repr, spaces, spec_parse_uint, trim_spaces, QUOTE, SPACE};
use crate::error::FitsHeaderError;
use crate::tform::TForm;

verus! {

/// A decoded header card value: one of the closed set of kinds this
/// library understands.
#[derive(Debug)]
pub enum HeaderValue {
    /// A logical value, serialized as `T` or `F`.
    Logical(bool),
    /// An unsigned 8 bit integer, serialized in decimal.
    UInt8(u8),
    /// An unsigned 16 bit integer, serialized in decimal.
    UInt16(u16),
    /// An unsigned 32 bit integer, serialized in decimal.
    UInt32(u32),
    /// A character string, serialized in single quotes.
    Text(String),
    /// A BITPIX size tag.
    BitpixValue(Bitpix),
    /// A TFORM column format descriptor.
    TFormValue(TForm),
}

/// ASCII 'T'.
pub const LETTER_T: u8 = 84;

/// ASCII 'F'.
pub const LETTER_F: u8 = 70;

/// The bytes of an ASCII character sequence, one byte per character.
pub open spec fn ascii_u8s(cs: Seq<char>) -> Seq<u8> {
    cs.map_values(|c: char| c as u8)
}

/// The characters of an ASCII byte sequence.
pub open spec fn chars_of(bs: Seq<u8>) -> Seq<char> {
    bs.map_values(|b: u8| b as char)
}

/// One layer of quote stripping, un-escaping doubled quotes, mirroring
/// a single forward scan: `remove` tells whether the next quote found
/// is dropped.
pub open spec fn unquote(s: Seq<u8>, remove: bool) -> Seq<u8>
    decreases s.len(),
{
    if s.len() == 0 {
        s
    } else if s[0] == QUOTE && remove {
        unquote(s.skip(1), false)
    } else if s[0] == QUOTE {
        seq![QUOTE] + unquote(s.skip(1), false)
    } else {
        seq![s[0]] + unquote(s.skip(1), true)
    }
}

/// Each single quote doubled.
pub open spec fn escape_quotes(s: Seq<u8>) -> Seq<u8>
    decreases s.len(),
{
    if s.len() == 0 {
        s
    } else if s[0] == QUOTE {
        seq![QUOTE, QUOTE] + escape_quotes(s.skip(1))
    } else {
        seq![s[0]] + escape_quotes(s.skip(1))
    }
}

/// A 70-byte field holding the escaped content in single quotes,
/// left-justified; content shorter than 8 bytes is space-padded to 8
/// inside the quotes.
pub open spec fn quoted_field(esc: Seq<u8>) -> Seq<u8> {
    let content = if esc.len() < 8 {
        esc + spaces((8 - esc.len()) as nat)
    } else {
        esc
    };
    seq![QUOTE] + content + seq![QUOTE] + spaces((68 - content.len()) as nat)
}

/// A 70-byte field with the given bytes right-justified so that they
/// end at field column 20.
pub open spec fn right_justified_field(v: Seq<u8>) -> Seq<u8> {
    spaces((20 - v.len()) as nat) + v + spaces(50)
}

/// Decoded text of a string field: quotes stripped, doubled quotes
/// un-escaped, surrounding spaces removed.
pub open spec fn string_text(raw: Seq<u8>) -> Seq<u8> {
    trim_spaces(unquote(raw, true))
}

pub open spec fn spec_decode_logical(raw: Seq<u8>) -> Option<bool> {
    if raw == seq![LETTER_T] {
        Some(true)
    } else if raw == seq![LETTER_F] {
        Some(false)
    } else {
        None
    }
}

pub open spec fn spec_encode_logical(v: bool) -> Seq<u8> {
    right_justified_field(seq![if v { LETTER_T } else { LETTER_F }])
}

pub open spec fn spec_encode_uint(n: nat) -> Seq<u8> {
    right_justified_field(dec_repr(n))
}

pub open spec fn string_decodes(raw: Seq<u8>) -> bool {
    all_ascii(string_text(raw)) && escape_quotes(string_text(raw)).len() <= 68
}

pub open spec fn spec_encode_text(cs: Seq<char>) -> Seq<u8> {
    quoted_field(escape_quotes(ascii_u8s(cs)))
}

pub open spec fn text_encodable(cs: Seq<char>) -> bool {
    vstd::utf8::is_ascii_chars(cs) && escape_quotes(ascii_u8s(cs)).len() <= 68
}

/// The codec every header card value kind implements: how a value is
/// decoded from the space-trimmed text of a card's value region, how it
/// is encoded into the fixed 70-byte field, and how it is wrapped in
/// and recovered from a [`HeaderValue`].
pub trait FitsHeaderValue: Sized {
    /// True when `raw` decodes to some value of this kind.
    spec fn decodes(raw: Seq<u8>) -> bool;

    /// True when `raw` decodes exactly to `v`.
    spec fn decode_ok(raw: Seq<u8>, v: Self) -> bool;

    /// True when the value fits the 70-byte field.
    spec fn encodable(&self) -> bool;

    /// The 70-byte field the value encodes to.
    spec fn spec_encode(&self) -> Seq<u8>;

    /// True when `v` wraps exactly the value `x`.
    spec fn value_of(x: Self, v: HeaderValue) -> bool;

    /// True when `v` wraps a value of this kind.
    spec fn kind_matches(v: HeaderValue) -> bool;

    /// Attempts to deserialize a value from the given bytes. The given
    /// bytes shall not be padded by spaces.
    fn from_bytes(raw: Vec<u8>) -> (r: Result<Self, FitsHeaderError>)
        ensures
            match r {
                Ok(v) => Self::decode_ok(raw@, v) && v.encodable(),
                Err(_) => !Self::decodes(raw@),
            },
    ;

    /// Serializes the value to its 70-byte field, padding spaces included.
    fn to_bytes(&self) -> (r: Vec<u8>)
        requires
            self.encodable(),
        ensures
            r@ == self.spec_encode(),
            r@.len() == 70,
    ;

    /// Decides whether the value fits the 70-byte field.
    fn check_encodable(&self) -> (b: bool)
        ensures
            b == self.encodable(),
    ;

    /// Wraps the value.
    fn to_value(&self) -> (v: HeaderValue)
        ensures
            Self::value_of(*self, v),
            Self::kind_matches(v),
            self.encodable() ==> value_encodable(v),
    ;

    /// Recovers a value of this kind, failing on any other kind.
    fn of_value(v: &HeaderValue) -> (r: Option<Self>)
        ensures
            match r {
                Some(x) => Self::value_of(x, *v) && Self::kind_matches(*v) && (value_encodable(*v)
                    ==> x.encodable()),
                None => !Self::kind_matches(*v),
            },
    ;
}

/// True when the wrapped value fits its 70-byte field.
pub open spec fn value_encodable(v: HeaderValue) -> bool {
    match v {
        HeaderValue::Logical(_) => true,
        HeaderValue::UInt8(_) => true,
        HeaderValue::UInt16(_) => true,
        HeaderValue::UInt32(_) => true,
        HeaderValue::Text(s) => text_encodable(s@),
        HeaderValue::BitpixValue(_) => true,
        HeaderValue::TFormValue(t) => crate::tform::tform_encodable(t),
    }
}

/// The 70-byte field a wrapped value encodes to.
pub open spec fn value_encode(v: HeaderValue) -> Seq<u8> {
    match v {
        HeaderValue::Logical(b) => spec_encode_logical(b),
        HeaderValue::UInt8(n) => spec_encode_uint(n as nat),
        HeaderValue::UInt16(n) => spec_encode_uint(n as nat),
        HeaderValue::UInt32(n) => spec_encode_uint(n as nat),
        HeaderValue::Text(s) => spec_encode_text(s@),
        HeaderValue::BitpixValue(b) => crate::bitpix::spec_encode_bitpix(b),
        HeaderValue::TFormValue(t) => crate::tform::spec_encode_tform(t),
    }
}

/// The bytes of an all-ASCII character run are all below 128.
pub proof fn lemma_ascii_u8s_ascii(cs: Seq<char>)
    requires
        vstd::utf8::is_ascii_chars(cs),
    ensures
        all_ascii(ascii_u8s(cs)),
{
    assert forall|i: int| 0 <= i < ascii_u8s(cs).len() implies #[trigger] ascii_u8s(cs)[i]
        < 128 by {
        assert('\0' <= cs[i] <= '\u{7f}');
        vstd::utf8::char_is_scalar(cs[i]);
        assert(ascii_u8s(cs)[i] == cs[i] as u8);
    }
}

/// The characters of the bytes of an all-ASCII character run are the
/// run itself.
pub proof fn lemma_u8s_chars_roundtrip(cs: Seq<char>)
    requires
        vstd::utf8::is_ascii_chars(cs),
    ensures
        chars_of(ascii_u8s(cs)) == cs,
{
    assert(chars_of(ascii_u8s(cs)) =~= cs) by {
        assert forall|i: int| 0 <= i < cs.len() implies #[trigger] chars_of(ascii_u8s(cs))[i]
            == cs[i] by {
            vstd::utf8::char_is_scalar(cs[i]);
            assert(chars_of(ascii_u8s(cs))[i] == ((cs[i] as u8) as char));
        }
    }
}

/// An encodable wrapped value always fills exactly 70 bytes.
pub proof fn lemma_value_encode_len(v: HeaderValue)
    requires
        value_encodable(v),
    ensures
        value_encode(v).len() == 70,
{
    match v {
        HeaderValue::Logical(_) => {},
        HeaderValue::UInt8(n) => {
            crate::bytesutil::lemma_dec_repr_len_u32(n as nat);
        },
        HeaderValue::UInt16(n) => {
            crate::bytesutil::lemma_dec_repr_len_u32(n as nat);
        },
        HeaderValue::UInt32(n) => {
            crate::bytesutil::lemma_dec_repr_len_u32(n as nat);
        },
        HeaderValue::Text(_) => {},
        HeaderValue::BitpixValue(_) => {},
        HeaderValue::TFormValue(_) => {},
    }
}

/// Serializes a wrapped value to its 70-byte field.
pub fn encode_value(v: &HeaderValue) -> (r: Vec<u8>)
    requires
        value_encodable(*v),
    ensures
        r@ == value_encode(*v),
        r@.len() == 70,
{
    match v {
        HeaderValue::Logical(b) => FitsHeaderValue::to_bytes(b),
        HeaderValue::UInt8(n) => FitsHeaderValue::to_bytes(n),
        HeaderValue::UInt16(n) => FitsHeaderValue::to_bytes(n),
        HeaderValue::UInt32(n) => FitsHeaderValue::to_bytes(n),
        HeaderValue::Text(s) => FitsHeaderValue::to_bytes(s),
        HeaderValue::BitpixValue(b) => FitsHeaderValue::to_bytes(b),
        HeaderValue::TFormValue(t) => FitsHeaderValue::to_bytes(t),
    }
}

/// Builds a `String` from ASCII bytes.
///
/// Relies on `String::from_utf8`: a vector of bytes below 128 is valid
/// UTF-8 and converts to the string holding exactly those character
/// codes, one character per byte.
#[verifier::external_body]
pub fn ascii_bytes_to_string(b: &Vec<u8>) -> (r: String)
    requires
        all_ascii(b@),
    ensures
        r@ == chars_of(b@),
        vstd::utf8::is_ascii_chars(r@),
        ascii_u8s(r@) == b@,
{
    String::from_utf8(b.clone()).unwrap_or_default()
}

/// The bytes of an all-ASCII string, one byte per character.
pub fn string_to_ascii_bytes(s: &String) -> (r: Vec<u8>)
    requires
        vstd::utf8::is_ascii_chars(s@),
    ensures
        r@ == ascii_u8s(s@),
{
    let st: &str = s.as_str();
    let sl: &[u8] = st.as_bytes();
    proof {
        vstd::string::is_ascii_spec_bytes(st);
        assert(sl@ =~= ascii_u8s(s@));
    }
    vstd::slice::slice_to_vec(sl)
}

/// Appends `unquote(s[i..], remove)` to `out`.
fn unquote_from(s: &Vec<u8>, i: usize, remove: bool, out: &mut Vec<u8>)
    requires
        i <= s@.len(),
    ensures
        final(out)@ == old(out)@ + unquote(s@.skip(i as int), remove),
    decreases s@.len() - i,
{
    if i == s.len() {
        assert(s@.skip(i as int) =~= Seq::<u8>::empty());
        assert(final(out)@ =~= old(out)@ + unquote(s@.skip(i as int), remove));
    } else {
        let b = s[i];
        proof {
            assert(s@.skip(i as int)[0] == b);
            assert(s@.skip(i as int).skip(1) =~= s@.skip(i + 1));
        }
        if b == QUOTE && remove {
            unquote_from(s, i + 1, false, out);
        } else if b == QUOTE {
            out.push(QUOTE);
            unquote_from(s, i + 1, false, out);
            assert(final(out)@ =~= old(out)@ + unquote(s@.skip(i as int), remove));
        } else {
            out.push(b);
            unquote_from(s, i + 1, true, out);
            assert(final(out)@ =~= old(out)@ + unquote(s@.skip(i as int), remove));
        }
    }
}

/// Appends `escape_quotes(s[i..])` to `out`.
fn escape_from(s: &Vec<u8>, i: usize, out: &mut Vec<u8>)
    requires
        i <= s@.len(),
    ensures
        final(out)@ == old(out)@ + escape_quotes(s@.skip(i as int)),
    decreases s@.len() - i,
{
    if i == s.len() {
        assert(s@.skip(i as int) =~= Seq::<u8>::empty());
        assert(final(out)@ =~= old(out)@ + escape_quotes(s@.skip(i as int)));
    } else {
        let b = s[i];
        proof {
            assert(s@.skip(i as int)[0] == b);
            assert(s@.skip(i as int).skip(1) =~= s@.skip(i + 1));
        }
        if b == QUOTE {
            out.push(QUOTE);
            out.push(QUOTE);
            escape_from(s, i + 1, out);
            assert(final(out)@ =~= old(out)@ + escape_quotes(s@.skip(i as int)));
        } else {
            out.push(b);
            escape_from(s, i + 1, out);
            assert(final(out)@ =~= old(out)@ + escape_quotes(s@.skip(i as int)));
        }
    }
}

impl FitsHeaderValue for String {
    open spec fn decodes(raw: Seq<u8>) -> bool {
        string_decodes(raw)
    }

    open spec fn decode_ok(raw: Seq<u8>, v: Self) -> bool {
        string_decodes(raw) && v@ == chars_of(string_text(raw)) && vstd::utf8::is_ascii_chars(v@)
    }

    open spec fn encodable(&self) -> bool {
        text_encodable(self@)
    }

    open spec fn spec_encode(&self) -> Seq<u8> {
        spec_encode_text(self@)
    }

    open spec fn value_of(x: Self, v: HeaderValue) -> bool {
        match v {
            HeaderValue::Text(t) => t@ == x@,
            _ => false,
        }
    }

    open spec fn kind_matches(v: HeaderValue) -> bool {
        v is Text
    }

    fn from_bytes(raw: Vec<u8>) -> (r: Result<Self, FitsHeaderError>) {
        let mut unq: Vec<u8> = Vec::new();
        proof {
            assert(raw@.skip(0) =~= raw@);
        }
        unquote_from(&raw, 0, true, &mut unq);
        assert(unq@ == unquote(raw@, true));
        let text = crate::bytesutil::trim_value(&unq);
        assert(text@ == string_text(raw@));
        if !crate::bytesutil::check_all_ascii(&text) {
            return Err(FitsHeaderError::DeserializationError {
                found: raw,
                intent: String::from_str("header card String value"),
            });
        }
        let mut esc: Vec<u8> = Vec::new();
        proof {
            assert(text@.skip(0) =~= text@);
        }
        escape_from(&text, 0, &mut esc);
        if esc.len() > 68 {
            return Err(FitsHeaderError::DeserializationError {
                found: raw,
                intent: String::from_str("header card String value"),
            });
        }
        let s = ascii_bytes_to_string(&text);
        Ok(s)
    }

    fn to_bytes(&self) -> (r: Vec<u8>) {
        let bytes = string_to_ascii_bytes(self);
        let mut esc: Vec<u8> = Vec::new();
        proof {
            assert(bytes@.skip(0) =~= bytes@);
        }
        escape_from(&bytes, 0, &mut esc);
        let mut out: Vec<u8> = Vec::new();
        out.push(QUOTE);
        crate::bytesutil::push_all(&mut out, &esc);
        if esc.len() < 8 {
            crate::bytesutil::push_repeat(&mut out, SPACE, 8 - esc.len());
        }
        let content_len = out.len() - 1;
        out.push(QUOTE);
        crate::bytesutil::push_repeat(&mut out, SPACE, 68 - content_len);
        assert(out@ =~= spec_encode_text(self@));
        out
    }

    fn check_encodable(&self) -> (b: bool) {
        if !self.is_ascii() {
            return false;
        }
        let bytes = string_to_ascii_bytes(self);
        let mut esc: Vec<u8> = Vec::new();
        proof {
            assert(bytes@.skip(0) =~= bytes@);
        }
        escape_from(&bytes, 0, &mut esc);
        esc.len() <= 68
    }

    fn to_value(&self) -> (v: HeaderValue) {
        HeaderValue::Text(self.clone())
    }

    fn of_value(v: &HeaderValue) -> (r: Option<Self>) {
        match v {
            HeaderValue::Text(t) => Some(t.clone()),
            _ => None,
        }
    }
}

/// Builds the 70-byte field with `v` right-justified to end at column 20.
pub fn build_right_justified(v: &Vec<u8>) -> (r: Vec<u8>)
    requires
        v@.len() <= 20,
    ensures
        r@ == right_justified_field(v@),
        r@.len() == 70,
{
    let mut r: Vec<u8> = Vec::new();
    crate::bytesutil::push_repeat(&mut r, SPACE, 20 - v.len());
    crate::bytesutil::push_all(&mut r, v);
    crate::bytesutil::push_repeat(&mut r, SPACE, 50);
    assert(r@ =~= right_justified_field(v@));
    r
}

impl FitsHeaderValue for bool {
    open spec fn decodes(raw: Seq<u8>) -> bool {
        spec_decode_logical(raw) is Some
    }

    open spec fn decode_ok(raw: Seq<u8>, v: Self) -> bool {
        spec_decode_logical(raw) == Some(v)
    }

    open spec fn encodable(&self) -> bool {
        true
    }

    open spec fn spec_encode(&self) -> Seq<u8> {
        spec_encode_logical(*self)
    }

    open spec fn value_of(x: Self, v: HeaderValue) -> bool {
        v == HeaderValue::Logical(x)
    }

    open spec fn kind_matches(v: HeaderValue) -> bool {
        v is Logical
    }

    fn from_bytes(raw: Vec<u8>) -> (r: Result<Self, FitsHeaderError>) {
        if raw.len() == 1 {
            let b = raw[0];
            assert(raw@ =~= seq![b]);
            if b == LETTER_T {
                Ok(true)
            } else if b == LETTER_F {
                Ok(false)
            } else {
                assert(raw@ != seq![LETTER_T] && raw@ != seq![LETTER_F]);
                Err(FitsHeaderError::DeserializationError {
                    found: raw,
                    intent: String::from_str("header card bool value"),
                })
            }
        } else {
            assert(raw@.len() != 1);
            assert(raw@ != seq![LETTER_T] && raw@ != seq![LETTER_F]);
            Err(FitsHeaderError::InvalidLength {
                expected: 1,
                found: raw.len(),
                intent: String::from_str("header card bool value"),
            })
        }
    }

    fn to_bytes(&self) -> (r: Vec<u8>) {
        let mut v: Vec<u8> = Vec::new();
        if *self {
            v.push(LETTER_T);
        } else {
            v.push(LETTER_F);
        }
        assert(v@ =~= seq![if *self { LETTER_T } else { LETTER_F }]);
        build_right_justified(&v)
    }

    fn check_encodable(&self) -> (b: bool) {
        true
    }

    fn to_value(&self) -> (v: HeaderValue) {
        HeaderValue::Logical(*self)
    }

    fn of_value(v: &HeaderValue) -> (r: Option<Self>) {
        match v {
            HeaderValue::Logical(b) => Some(*b),
            _ => None,
        }
    }
}

impl FitsHeaderValue for u8 {
    open spec fn decodes(raw: Seq<u8>) -> bool {
        spec_parse_uint(raw, 255) is Some
    }

    open spec fn decode_ok(raw: Seq<u8>, v: Self) -> bool {
        spec_parse_uint(raw, 255) == Some(v as int)
    }

    open spec fn encodable(&self) -> bool {
        true
    }

    open spec fn spec_encode(&self) -> Seq<u8> {
        spec_encode_uint(*self as nat)
    }

    open spec fn value_of(x: Self, v: HeaderValue) -> bool {
        v == HeaderValue::UInt8(x)
    }

    open spec fn kind_matches(v: HeaderValue) -> bool {
        v is UInt8
    }

    fn from_bytes(raw: Vec<u8>) -> (r: Result<Self, FitsHeaderError>) {
        match crate::bytesutil::parse_uint(&raw, 255) {
            Some(v) => Ok(v as u8),
            None => Err(FitsHeaderError::DeserializationError {
                found: raw,
                intent: String::from_str("header card u8 value"),
            }),
        }
    }

    fn to_bytes(&self) -> (r: Vec<u8>) {
        encode_uint_field(*self as u64)
    }

    fn check_encodable(&self) -> (b: bool) {
        true
    }

    fn to_value(&self) -> (v: HeaderValue) {
        HeaderValue::UInt8(*self)
    }

    fn of_value(v: &HeaderValue) -> (r: Option<Self>) {
        match v {
            HeaderValue::UInt8(n) => Some(*n),
            _ => None,
        }
    }
}

impl FitsHeaderValue for u16 {
    open spec fn decodes(raw: Seq<u8>) -> bool {
        spec_parse_uint(raw, 0xFFFF) is Some
    }

    open spec fn decode_ok(raw: Seq<u8>, v: Self) -> bool {
        spec_parse_uint(raw, 0xFFFF) == Some(v as int)
    }

    open spec fn encodable(&self) -> bool {
        true
    }

    open spec fn spec_encode(&self) -> Seq<u8> {
        spec_encode_uint(*self as nat)
    }

    open spec fn value_of(x: Self, v: HeaderValue) -> bool {
        v == HeaderValue::UInt16(x)
    }

    open spec fn kind_matches(v: HeaderValue) -> bool {
        v is UInt16
    }

    fn from_bytes(raw: Vec<u8>) -> (r: Result<Self, FitsHeaderError>) {
        match crate::bytesutil::parse_uint(&raw, 0xFFFF) {
            Some(v) => Ok(v as u16),
            None => Err(FitsHeaderError::DeserializationError {
                found: raw,
                intent: String::from_str("header card u16 value"),
            }),
        }
    }

    fn to_bytes(&self) -> (r: Vec<u8>) {
        encode_uint_field(*self as u64)
    }

    fn check_encodable(&self) -> (b: bool) {
        true
    }

    fn to_value(&self) -> (v: HeaderValue) {
        HeaderValue::UInt16(*self)
    }

    fn of_value(v: &HeaderValue) -> (r: Option<Self>) {
        match v {
            HeaderValue::UInt16(n) => Some(*n),
            _ => None,
        }
    }
}

impl FitsHeaderValue for u32 {
    open spec fn decodes(raw: Seq<u8>) -> bool {
        spec_parse_uint(raw, 0xFFFF_FFFF) is Some
    }

    open spec fn decode_ok(raw: Seq<u8>, v: Self) -> bool {
        spec_parse_uint(raw, 0xFFFF_FFFF) == Some(v as int)
    }

    open spec fn encodable(&self) -> bool {
        true
    }

    open spec fn spec_encode(&self) -> Seq<u8> {
        spec_encode_uint(*self as nat)
    }

    open spec fn value_of(x: Self, v: HeaderValue) -> bool {
        v == HeaderValue::UInt32(x)
    }

    open spec fn kind_matches(v: HeaderValue) -> bool {
        v is UInt32
    }

    fn from_bytes(raw: Vec<u8>) -> (r: Result<Self, FitsHeaderError>) {
        match crate::bytesutil::parse_uint(&raw, 0xFFFF_FFFF) {
            Some(v) => Ok(v as u32),
            None => Err(FitsHeaderError::DeserializationError {
                found: raw,
                intent: String::from_str("header card u32 value"),
            }),
        }
    }

    fn to_bytes(&self) -> (r: Vec<u8>) {
        encode_uint_field(*self as u64)
    }

    fn check_encodable(&self) -> (b: bool) {
        true
    }

    fn to_value(&self) -> (v: HeaderValue) {
        HeaderValue::UInt32(*self)
    }

    fn of_value(v: &HeaderValue) -> (r: Option<Self>) {
        match v {
            HeaderValue::UInt32(n) => Some(*n),
            _ => None,
        }
    }
}

/// Builds the right-justified decimal field for `n`.
fn encode_uint_field(n: u64) -> (r: Vec<u8>)
    requires
        n <= 0xFFFF_FFFF,
    ensures
        r@ == spec_encode_uint(n as nat),
        r@.len() == 70,
{
    let mut digits: Vec<u8> = Vec::new();
    crate::bytesutil::push_decimal(&mut digits, n);
    proof {
        crate::bytesutil::lemma_dec_repr_len_u32(n as nat);
    }
    build_right_justified(&digits)
}

} // verus!
