//! The 8-byte keyword that opens each header card.

use vstd::prelude::*;

use crate::bytesutil::{dec_repr, is_digit, push_decimal, SPACE};

verus! {

/// Keyword of the first header card of the primary HDU: `SIMPLE`.
pub fn simple_keyword() -> (r: [u8; 8])
    ensures
        r@ == spec_simple_keyword(),
{
    [83u8, 73, 77, 80, 76, 69, 32, 32]
}

pub open spec fn spec_simple_keyword() -> Seq<u8> {
    seq![83u8, 73, 77, 80, 76, 69, 32, 32]
}

/// Keyword naming the size of each value in the HDU data section: `BITPIX`.
pub fn bitpix_keyword() -> (r: [u8; 8])
    ensures
        r@ == spec_bitpix_keyword(),
{
    [66u8, 73, 84, 80, 73, 88, 32, 32]
}

pub open spec fn spec_bitpix_keyword() -> Seq<u8> {
    seq![66u8, 73, 84, 80, 73, 88, 32, 32]
}

/// Keyword naming the number of axes in the HDU data section: `NAXIS`.
pub fn naxis_keyword() -> (r: [u8; 8])
    ensures
        r@ == spec_naxis_keyword(),
{
    [78u8, 65, 88, 73, 83, 32, 32, 32]
}

pub open spec fn spec_naxis_keyword() -> Seq<u8> {
    seq![78u8, 65, 88, 73, 83, 32, 32, 32]
}

/// Keyword of the card that terminates a header: `END`.
pub fn end_keyword() -> (r: [u8; 8])
    ensures
        r@ == spec_end_keyword(),
{
    [69u8, 78, 68, 32, 32, 32, 32, 32]
}

pub open spec fn spec_end_keyword() -> Seq<u8> {
    seq![69u8, 78, 68, 32, 32, 32, 32, 32]
}

/// Keyword of the first header card of each HDU following the primary: `XTENSION`.
pub fn xtension_keyword() -> (r: [u8; 8])
    ensures
        r@ == spec_xtension_keyword(),
{
    [88u8, 84, 69, 78, 83, 73, 79, 78]
}

pub open spec fn spec_xtension_keyword() -> Seq<u8> {
    seq![88u8, 84, 69, 78, 83, 73, 79, 78]
}

/// Keyword naming an extension: `EXTNAME`.
pub fn extname_keyword() -> (r: [u8; 8])
    ensures
        r@ == spec_extname_keyword(),
{
    [69u8, 88, 84, 78, 65, 77, 69, 32]
}

pub open spec fn spec_extname_keyword() -> Seq<u8> {
    seq![69u8, 88, 84, 78, 65, 77, 69, 32]
}

/// Keyword stem naming a table column: `TTYPE`.
pub fn ttype_keyword() -> (r: [u8; 8])
    ensures
        r@ == spec_ttype_keyword(),
{
    [84u8, 84, 89, 80, 69, 32, 32, 32]
}

pub open spec fn spec_ttype_keyword() -> Seq<u8> {
    seq![84u8, 84, 89, 80, 69, 32, 32, 32]
}

/// Keyword stem naming a table column format: `TFORM`.
pub fn tform_keyword() -> (r: [u8; 8])
    ensures
        r@ == spec_tform_keyword(),
{
    [84u8, 70, 79, 82, 77, 32, 32, 32]
}

pub open spec fn spec_tform_keyword() -> Seq<u8> {
    seq![84u8, 70, 79, 82, 77, 32, 32, 32]
}

/// An all-space keyword, used by filler cards.
pub fn blank_keyword() -> (r: [u8; 8])
    ensures
        r@ == spec_blank_keyword(),
{
    [32u8, 32, 32, 32, 32, 32, 32, 32]
}

pub open spec fn spec_blank_keyword() -> Seq<u8> {
    seq![32u8, 32, 32, 32, 32, 32, 32, 32]
}

/// A FITS header keyword: exactly 8 bytes, space-padded on the right.
///
/// This wrapper provides functions to interact with both raw arrays and
/// strings.
#[derive(Debug, Clone, Copy)]
pub struct FitsHeaderKeyword {
    raw: [u8; 8],
}

impl View for FitsHeaderKeyword {
    type V = Seq<u8>;

    closed spec fn view(&self) -> Seq<u8> {
        self.raw@
    }
}

/// A keyword is always exactly 8 bytes.
pub proof fn lemma_keyword_len(k: FitsHeaderKeyword)
    ensures
        k@.len() == 8,
{
}

/// Length of the keyword stem: the first position holding a space or a
/// decimal digit, or 8 when there is none.
pub open spec fn stem_len(s: Seq<u8>) -> int
    decreases s.len(),
{
    if s.len() == 0 {
        0
    } else if s[0] == SPACE || is_digit(s[0]) {
        0
    } else {
        1 + stem_len(s.skip(1))
    }
}

/// The keyword with the decimal rendering of `n` in place of its first
/// trailing space or digit run, space-padded back to 8 bytes.
pub open spec fn append_number_spec(s: Seq<u8>, n: u16) -> Seq<u8> {
    let i = stem_len(s);
    let d = dec_repr(n as nat);
    s.take(i) + d + crate::bytesutil::spaces((8 - i - d.len()) as nat)
}

impl FitsHeaderKeyword {
    /// Wraps the given raw bytes as a keyword.
    pub fn from_raw(raw: [u8; 8]) -> (r: FitsHeaderKeyword)
        ensures
            r@ == raw@,
    {
        FitsHeaderKeyword { raw }
    }

    /// The raw bytes of the keyword.
    pub fn as_raw(&self) -> (r: [u8; 8])
        ensures
            r@ == self@,
    {
        self.raw
    }

    /// Compares this keyword against raw bytes.
    pub fn matches_raw(&self, other: &[u8; 8]) -> (r: bool)
        ensures
            r == (self@ == other@),
    {
        let mut i: usize = 0;
        while i < 8
            invariant
                i <= 8,
                forall|j: int| 0 <= j < i ==> self.raw@[j] == other@[j],
            decreases 8 - i,
        {
            if self.raw[i] != other[i] {
                assert(self@ != other@);
                return false;
            }
            i += 1;
        }
        assert(self.raw@ =~= other@);
        true
    }

    /// Builds a keyword from a string, space-padded on the right;
    /// fails when the string holds more than 8 bytes.
    pub fn from_text(s: &str) -> (r: Option<FitsHeaderKeyword>)
        ensures
            match r {
                Some(k) => k@ == vstd::utf8::encode_utf8(s@) + crate::bytesutil::spaces(
                    (8 - vstd::utf8::encode_utf8(s@).len()) as nat,
                ),
                None => vstd::utf8::encode_utf8(s@).len() > 8,
            },
    {
        let b = s.as_bytes();
        let n = b.len();
        if n > 8 {
            return None;
        }
        let mut raw: [u8; 8] = [32u8, 32, 32, 32, 32, 32, 32, 32];
        let mut i: usize = 0;
        while i < n
            invariant
                i <= n <= 8,
                b@ == vstd::utf8::encode_utf8(s@),
                n == b@.len(),
                forall|j: int| 0 <= j < i ==> raw@[j] == b@[j],
                forall|j: int| i <= j < 8 ==> raw@[j] == 32,
            decreases n - i,
        {
            raw[i] = b[i];
            i += 1;
        }
        proof {
            assert(raw@ =~= vstd::utf8::encode_utf8(s@) + crate::bytesutil::spaces(
                (8 - vstd::utf8::encode_utf8(s@).len()) as nat,
            ));
        }
        Some(FitsHeaderKeyword { raw })
    }

    /// Compares this keyword against a string: the string, right-padded
    /// with spaces to 8 bytes, must spell the keyword; a longer string
    /// never matches.
    pub fn matches_str(&self, s: &str) -> (r: bool)
        ensures
            r == (vstd::utf8::encode_utf8(s@).len() <= 8 && self@ == vstd::utf8::encode_utf8(s@)
                + crate::bytesutil::spaces((8 - vstd::utf8::encode_utf8(s@).len()) as nat)),
    {
        let b = s.as_bytes();
        let n = b.len();
        if n > 8 {
            return false;
        }
        let mut i: usize = 0;
        while i < 8
            invariant
                i <= 8,
                n <= 8,
                b@ == vstd::utf8::encode_utf8(s@),
                n == b@.len(),
                forall|j: int|
                    0 <= j < i ==> self.raw@[j] == (if j < n {
                        b@[j]
                    } else {
                        32u8
                    }),
            decreases 8 - i,
        {
            let expect: u8 = if i < n {
                b[i]
            } else {
                32
            };
            if self.raw[i] != expect {
                proof {
                    let pad = vstd::utf8::encode_utf8(s@) + crate::bytesutil::spaces(
                        (8 - n) as nat,
                    );
                    assert(pad[i as int] == expect);
                }
                return false;
            }
            i += 1;
        }
        proof {
            assert(self.raw@ =~= vstd::utf8::encode_utf8(s@) + crate::bytesutil::spaces(
                (8 - n) as nat,
            ));
        }
        true
    }

    /// Compares two keywords for byte equality.
    pub fn matches_keyword(&self, other: &FitsHeaderKeyword) -> (r: bool)
        ensures
            r == (self@ == other@),
    {
        self.matches_raw(&other.raw)
    }

    /// Length of the keyword stem, before any trailing spaces or digits.
    pub fn stem_length(&self) -> (r: usize)
        ensures
            r == stem_len(self@),
            r <= 8,
    {
        let mut i: usize = 0;
        proof {
            assert(self.raw@.skip(0) =~= self.raw@);
        }
        while i < 8
            invariant
                i <= 8,
                self.raw@.len() == 8,
                stem_len(self.raw@) == i + stem_len(self.raw@.skip(i as int)),
            decreases 8 - i,
        {
            let b = self.raw[i];
            proof {
                assert(self.raw@.skip(i as int)[0] == b);
                if !(b == SPACE || is_digit(b)) {
                    assert(self.raw@.skip(i as int).skip(1) =~= self.raw@.skip(i + 1));
                }
            }
            if b == SPACE || (48 <= b && b <= 57) {
                return i;
            }
            i += 1;
        }
        proof {
            assert(self.raw@.skip(8) =~= Seq::<u8>::empty());
        }
        8
    }

    /// Appends the given number to the keyword stem.
    /// If a number is already appended, it is replaced by the given number.
    /// The stem and the digits must fit in 8 bytes; a longer combination
    /// is a caller error.
    pub fn append_number(&mut self, number: u16)
        requires
            stem_len(old(self)@) + dec_repr(number as nat).len() <= 8,
        ensures
            final(self)@ == append_number_spec(old(self)@, number),
    {
        let i = self.stem_length();
        let mut digits: Vec<u8> = Vec::new();
        push_decimal(&mut digits, number as u64);
        let ghost d = dec_repr(number as nat);
        let dn = digits.len();
        assert(digits@ == d);
        let mut k: usize = 0;
        while k < dn
            invariant
                k <= dn == d.len(),
                i + dn <= 8,
                digits@ == d,
                i == stem_len(old(self)@),
                self.raw@.len() == 8,
                self.raw@.take(i as int) == old(self)@.take(i as int),
                self.raw@.subrange(i as int, (i + k) as int) == d.take(k as int),
                self.raw@.skip((i + dn) as int) == old(self)@.skip((i + dn) as int),
            decreases dn - k,
        {
            self.raw[i + k] = digits[k];
            assert(self.raw@.take(i as int) =~= old(self)@.take(i as int));
            assert(self.raw@.subrange(i as int, (i + k + 1) as int) =~= d.take((k + 1) as int));
            assert(self.raw@.skip((i + dn) as int) =~= old(self)@.skip((i + dn) as int));
            k += 1;
        }
        let mut p: usize = i + dn;
        while p < 8
            invariant
                i + dn <= p <= 8,
                i == stem_len(old(self)@),
                dn == d.len(),
                self.raw@.len() == 8,
                self.raw@.take(i as int) == old(self)@.take(i as int),
                self.raw@.subrange(i as int, (i + dn) as int) == d,
                forall|j: int| i + dn <= j < p ==> self.raw@[j] == SPACE,
            decreases 8 - p,
        {
            self.raw[p] = SPACE;
            assert(self.raw@.take(i as int) =~= old(self)@.take(i as int));
            assert(self.raw@.subrange(i as int, (i + dn) as int) =~= d);
            p += 1;
        }
        proof {
            assert(d.take(dn as int) =~= d);
            assert(final(self)@ =~= append_number_spec(old(self)@, number));
        }
    }
}

} // verus!
