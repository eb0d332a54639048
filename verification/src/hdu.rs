//! One Header Data Unit: a header plus its raw payload bytes, with
//! the payload length derived from the header fields.

use vstd::prelude::*;
use vstd::string::StringExecFns;

use crate::bitpix::{spec_bitpix_width, Bitpix};
use crate::bytesutil::{
    be_bytes, be_val, push_be, push_repeat, read_be, round_record, zeros,
};
use crate::container::{spec_bitpix_value, spec_string_value, spec_u16_value, spec_u32_value};
use crate::error::FitsHeaderError;
use crate::header::{find_card, FitsHeader, FitsHeaderCard};
use crate::keyword::{
    append_number_spec, naxis_keyword, spec_bitpix_keyword, spec_extname_keyword,
    spec_naxis_keyword, stem_len, FitsHeaderKeyword,
};

verus! {

/// The `u16` value of the first card with the given keyword, or 0.
pub open spec fn spec_u16_of(cards: Seq<FitsHeaderCard>, kw: Seq<u8>) -> u16 {
    match find_card(cards, kw) {
        Some(i) => match spec_u16_value(cards[i].spec_container()) {
            Some(n) => n,
            None => 0,
        },
        None => 0,
    }
}

/// The `u32` value of the first card with the given keyword, or 0.
pub open spec fn spec_u32_of(cards: Seq<FitsHeaderCard>, kw: Seq<u8>) -> u32 {
    match find_card(cards, kw) {
        Some(i) => match spec_u32_value(cards[i].spec_container()) {
            Some(n) => n,
            None => 0,
        },
        None => 0,
    }
}

/// The declared axis count of a header.
pub open spec fn spec_naxis(cards: Seq<FitsHeaderCard>) -> u16 {
    spec_u16_of(cards, spec_naxis_keyword())
}

/// The declared size tag of a header, if present and valid.
pub open spec fn spec_bitpix(cards: Seq<FitsHeaderCard>) -> Option<Bitpix> {
    match find_card(cards, spec_bitpix_keyword()) {
        Some(i) => spec_bitpix_value(cards[i].spec_container()),
        None => None,
    }
}

/// The declared size of axis `x` (1-based): the value of the axis-size
/// card, or 0 when the card is missing, invalid, or its suffixed
/// keyword would not fit in 8 bytes.
pub open spec fn spec_axis(cards: Seq<FitsHeaderCard>, x: int) -> u32 {
    if 1 <= x <= 999 {
        spec_u32_of(cards, append_number_spec(spec_naxis_keyword(), x as u16))
    } else {
        0
    }
}

/// Product of the sizes of axes 1 through `x`.
pub open spec fn spec_axes_product(cards: Seq<FitsHeaderCard>, x: int) -> nat
    decreases x,
{
    if x <= 0 {
        1
    } else {
        spec_axes_product(cards, x - 1) * (spec_axis(cards, x) as nat)
    }
}

/// The payload byte length a header declares: the product of all axis
/// sizes times the element byte width; zero when the axis count is
/// zero or the size tag is absent or invalid.
pub open spec fn spec_payload_len(cards: Seq<FitsHeaderCard>) -> nat {
    let naxis = spec_naxis(cards);
    if naxis == 0 {
        0
    } else {
        match spec_bitpix(cards) {
            Some(bp) => spec_axes_product(cards, naxis as int) * (spec_bitpix_width(bp) / 8),
            None => 0,
        }
    }
}

/// Reads the `u16` value of the first card with the given keyword,
/// without caching; 0 when absent or invalid.
pub fn peek_u16_of(header: &FitsHeader, keyword: &FitsHeaderKeyword) -> (r: u16)
    requires
        header.wf(),
    ensures
        r == spec_u16_of(header.cards@, keyword@),
{
    match header.card_index(keyword) {
        Some(i) => {
            let res: Result<u16, FitsHeaderError> = header.cards[i].peek_value();
            match res {
                Ok(v) => v,
                Err(_) => 0,
            }
        },
        None => 0,
    }
}

/// The logical value of the first card with the given keyword, or
/// `false`.
pub open spec fn spec_bool_of(cards: Seq<FitsHeaderCard>, kw: Seq<u8>) -> bool {
    match find_card(cards, kw) {
        Some(i) => match crate::container::spec_bool_value(cards[i].spec_container()) {
            Some(b) => b,
            None => false,
        },
        None => false,
    }
}

/// Reads the logical value of the first card with the given keyword,
/// without caching; `false` when absent or invalid.
pub fn peek_bool_of(header: &FitsHeader, keyword: &FitsHeaderKeyword) -> (r: bool)
    requires
        header.wf(),
    ensures
        r == spec_bool_of(header.cards@, keyword@),
{
    match header.card_index(keyword) {
        Some(i) => {
            let res: Result<bool, FitsHeaderError> = header.cards[i].peek_value();
            match res {
                Ok(v) => v,
                Err(_) => false,
            }
        },
        None => false,
    }
}

/// Reads the `u32` value of the first card with the given keyword,
/// without caching; 0 when absent or invalid.
pub fn peek_u32_of(header: &FitsHeader, keyword: &FitsHeaderKeyword) -> (r: u32)
    requires
        header.wf(),
    ensures
        r == spec_u32_of(header.cards@, keyword@),
{
    match header.card_index(keyword) {
        Some(i) => {
            let res: Result<u32, FitsHeaderError> = header.cards[i].peek_value();
            match res {
                Ok(v) => v,
                Err(_) => 0,
            }
        },
        None => 0,
    }
}

/// Reads the size of axis `x`, without caching.
pub fn peek_axis(header: &FitsHeader, x: u16) -> (r: u32)
    requires
        header.wf(),
        x >= 1,
    ensures
        r == spec_axis(header.cards@, x as int),
{
    if x > 999 {
        return 0;
    }
    let mut kw = FitsHeaderKeyword::from_raw(naxis_keyword());
    proof {
        reveal_with_fuel(stem_len, 9);
        assert(stem_len(spec_naxis_keyword()) == 5) by {
            assert(spec_naxis_keyword().skip(5)[0] == 32);
            assert(spec_naxis_keyword().skip(1).skip(1) =~= spec_naxis_keyword().skip(2));
            assert(spec_naxis_keyword().skip(2).skip(1) =~= spec_naxis_keyword().skip(3));
            assert(spec_naxis_keyword().skip(3).skip(1) =~= spec_naxis_keyword().skip(4));
            assert(spec_naxis_keyword().skip(4).skip(1) =~= spec_naxis_keyword().skip(5));
        }
        crate::bytesutil::lemma_dec_repr_len_small(x as nat);
    }
    kw.append_number(x);
    peek_u32_of(header, &kw)
}

/// Computes the payload byte length a header declares, saturating at
/// `u64::MAX` when the mathematical value does not fit.
pub fn computed_payload_len(header: &FitsHeader) -> (r: u64)
    requires
        header.wf(),
    ensures
        spec_payload_len(header.cards@) <= u64::MAX ==> r == spec_payload_len(header.cards@),
        spec_payload_len(header.cards@) > u64::MAX ==> r == u64::MAX,
{
    let ghost cards = header.cards@;
    let nk = FitsHeaderKeyword::from_raw(naxis_keyword());
    let naxis = peek_u16_of(header, &nk);
    if naxis == 0 {
        return 0;
    }
    let bk = FitsHeaderKeyword::from_raw(crate::keyword::bitpix_keyword());
    let bitpix: Bitpix = match header.card_index(&bk) {
        Some(i) => {
            let res: Result<Bitpix, FitsHeaderError> = header.cards[i].peek_value();
            match res {
                Ok(b) => b,
                Err(_) => {
                    return 0;
                },
            }
        },
        None => {
            return 0;
        },
    };
    assert(spec_bitpix(cards) == Some(bitpix));
    let w8: u64 = (bitpix.value() / 8) as u64;
    let mut acc: u64 = 1;
    let mut over: bool = false;
    let mut x: u32 = 1;
    assert(spec_axes_product(cards, 0) == 1);
    while x <= naxis as u32
        invariant
            1 <= x <= naxis + 1,
            header.wf(),
            cards == header.cards@,
            spec_naxis(cards) == naxis,
            naxis >= 1,
            spec_bitpix(cards) == Some(bitpix),
            w8 == spec_bitpix_width(bitpix) / 8,
            1 <= w8 <= 8,
            !over ==> acc == spec_axes_product(cards, x - 1),
            over ==> spec_axes_product(cards, x - 1) > u64::MAX,
            forall|j: int| 1 <= j < x ==> spec_axis(cards, j) >= 1,
        decreases naxis + 1 - x,
    {
        let v = peek_axis(header, x as u16);
        if v == 0 {
            proof {
                lemma_axes_product_zero(cards, x as int, naxis as int);
                assert(spec_axes_product(cards, naxis as int) == 0);
                assert(spec_axes_product(cards, naxis as int) * (spec_bitpix_width(bitpix) / 8)
                    == 0) by (nonlinear_arith)
                    requires
                        spec_axes_product(cards, naxis as int) == 0,
                ;
                assert(spec_payload_len(cards) == 0);
            }
            return 0;
        }
        if !over {
            match acc.checked_mul(v as u64) {
                Some(n) => {
                    proof {
                        assert(spec_axes_product(cards, x as int) == spec_axes_product(
                            cards,
                            x - 1,
                        ) * (spec_axis(cards, x as int) as nat));
                    }
                    acc = n;
                },
                None => {
                    proof {
                        assert(spec_axes_product(cards, x as int) == spec_axes_product(
                            cards,
                            x - 1,
                        ) * (spec_axis(cards, x as int) as nat));
                        assert(spec_axes_product(cards, x as int) > u64::MAX) by (
                        nonlinear_arith)
                            requires
                                spec_axes_product(cards, x as int) == spec_axes_product(
                                    cards,
                                    x - 1,
                                ) * (spec_axis(cards, x as int) as nat),
                                acc as nat * (v as nat) > u64::MAX,
                                acc == spec_axes_product(cards, x - 1),
                                v == spec_axis(cards, x as int),
                        ;
                    }
                    over = true;
                },
            }
        } else {
            proof {
                lemma_axes_product_monotone(cards, x - 1, x as int);
            }
        }
        x += 1;
    }
    let ghost total = spec_payload_len(cards);
    proof {
        assert(total == spec_axes_product(cards, naxis as int) * (w8 as nat));
    }
    if over {
        proof {
            assert(total > u64::MAX) by (nonlinear_arith)
                requires
                    total == spec_axes_product(cards, naxis as int) * (w8 as nat),
                    spec_axes_product(cards, naxis as int) > u64::MAX,
                    w8 >= 1,
            ;
        }
        return u64::MAX;
    }
    match acc.checked_mul(w8) {
        Some(t) => t,
        None => u64::MAX,
    }
}

/// A zero axis size zeroes the whole product.
proof fn lemma_axes_product_zero(cards: Seq<FitsHeaderCard>, x: int, n: int)
    requires
        1 <= x <= n,
        spec_axis(cards, x) == 0,
    ensures
        spec_axes_product(cards, n) == 0,
    decreases n,
{
    if n > x {
        lemma_axes_product_zero(cards, x, n - 1);
        assert(spec_axes_product(cards, n) == spec_axes_product(cards, n - 1) * (spec_axis(
            cards,
            n,
        ) as nat));
        assert(spec_axes_product(cards, n - 1) * (spec_axis(cards, n) as nat) == 0) by (
        nonlinear_arith)
            requires
                spec_axes_product(cards, n - 1) == 0,
        ;
    } else {
        assert(spec_axes_product(cards, x) == spec_axes_product(cards, x - 1) * (spec_axis(
            cards,
            x,
        ) as nat));
        assert(spec_axes_product(cards, x - 1) * (spec_axis(cards, x) as nat) == 0) by (
        nonlinear_arith)
            requires
                spec_axis(cards, x) == 0,
        ;
    }
}

/// Axis sizes of at least 1 keep the product from shrinking.
proof fn lemma_axes_product_monotone(cards: Seq<FitsHeaderCard>, x: int, n: int)
    requires
        0 <= x <= n,
        forall|j: int| x < j <= n ==> spec_axis(cards, j) >= 1,
    ensures
        spec_axes_product(cards, n) >= spec_axes_product(cards, x),
    decreases n - x,
{
    if n > x {
        lemma_axes_product_monotone(cards, x, n - 1);
        assert(spec_axis(cards, n) >= 1);
        assert(spec_axes_product(cards, n) >= spec_axes_product(cards, n - 1)) by (
        nonlinear_arith)
            requires
                spec_axes_product(cards, n) == spec_axes_product(cards, n - 1) * (spec_axis(
                    cards,
                    n,
                ) as nat),
                spec_axis(cards, n) >= 1,
        ;
    }
}


/// A trait that allows data to be serialized/deserialized as the data
/// section of an HDU: a fixed-width, big-endian element collection.
pub trait FitsDataCollection: Sized {
    /// The serialized bytes of the collection.
    spec fn spec_to_bytes(&self) -> Seq<u8>;

    /// True when `raw` deserializes to a collection of this type.
    spec fn decodes(raw: Seq<u8>) -> bool;

    /// True when `raw` deserializes exactly to `v`.
    spec fn decode_ok(raw: Seq<u8>, v: Self) -> bool;

    /// Attempts to deserialize a data collection from the given bytes.
    fn from_bytes(raw: &Vec<u8>) -> (r: Result<Self, FitsHeaderError>)
        ensures
            match r {
                Ok(v) => Self::decode_ok(raw@, v),
                Err(_) => !Self::decodes(raw@),
            },
    ;

    /// Serializes the data collection to bytes.
    fn to_bytes(&self) -> (r: Vec<u8>)
        ensures
            r@ == self.spec_to_bytes(),
    ;
}

impl FitsDataCollection for Vec<u8> {
    open spec fn spec_to_bytes(&self) -> Seq<u8> {
        self@
    }

    open spec fn decodes(raw: Seq<u8>) -> bool {
        true
    }

    open spec fn decode_ok(raw: Seq<u8>, v: Self) -> bool {
        v@ == raw
    }

    fn from_bytes(raw: &Vec<u8>) -> (r: Result<Self, FitsHeaderError>) {
        let v = crate::bytesutil::copy_range(raw, 0, raw.len());
        proof {
            assert(v@ =~= raw@);
        }
        Ok(v)
    }

    fn to_bytes(&self) -> (r: Vec<u8>) {
        let v = crate::bytesutil::copy_range(self, 0, self.len());
        proof {
            assert(v@ =~= self@);
        }
        v
    }
}

/// The big-endian bytes of a run of 16-bit values.
pub open spec fn i16_seq_bytes(v: Seq<i16>) -> Seq<u8>
    decreases v.len(),
{
    if v.len() == 0 {
        Seq::<u8>::empty()
    } else {
        i16_seq_bytes(v.drop_last()) + be_bytes((v.last() as u16) as nat, 2)
    }
}

/// The 16-bit values of a run of big-endian bytes.
pub open spec fn bytes_i16_seq(raw: Seq<u8>) -> Seq<i16> {
    Seq::new((raw.len() / 2) as nat, |i: int| be_val(raw.subrange(2 * i, 2 * i + 2)) as u16 as i16)
}

impl FitsDataCollection for Vec<i16> {
    open spec fn spec_to_bytes(&self) -> Seq<u8> {
        i16_seq_bytes(self@)
    }

    open spec fn decodes(raw: Seq<u8>) -> bool {
        raw.len() % 2 == 0
    }

    open spec fn decode_ok(raw: Seq<u8>, v: Self) -> bool {
        raw.len() % 2 == 0 && v@ == bytes_i16_seq(raw)
    }

    fn from_bytes(raw: &Vec<u8>) -> (r: Result<Self, FitsHeaderError>) {
        let n = raw.len();
        if n % 2 != 0 {
            return Err(FitsHeaderError::InvalidLength {
                expected: n - n % 2,
                found: n,
                intent: String::from_str("HDU data element run"),
            });
        }
        let count = n / 2;
        let mut out: Vec<i16> = Vec::new();
        let mut i: usize = 0;
        while i < count
            invariant
                i <= count,
                n == raw@.len(),
                n % 2 == 0,
                count == n / 2,
                out@ == bytes_i16_seq(raw@).take(i as int),
            decreases count - i,
        {
            let u = read_be(raw, 2 * i, 2);
            proof {
                crate::bytesutil::lemma_be_val_bound(raw@.subrange(2 * i, 2 * i + 2));
                reveal_with_fuel(crate::bytesutil::pow256, 3);
            }
            out.push((u as u16) as i16);
            assert(out@ =~= bytes_i16_seq(raw@).take(i + 1));
            i += 1;
        }
        assert(out@ =~= bytes_i16_seq(raw@));
        Ok(out)
    }

    fn to_bytes(&self) -> (r: Vec<u8>) {
        let n = self.len();
        let mut out: Vec<u8> = Vec::new();
        let mut i: usize = 0;
        proof {
            assert(i16_seq_bytes(self@.take(0)) =~= Seq::<u8>::empty());
        }
        while i < n
            invariant
                i <= n == self@.len(),
                out@ == i16_seq_bytes(self@.take(i as int)),
            decreases n - i,
        {
            push_be(&mut out, (self[i] as u16) as u64, 2);
            proof {
                assert(self@.take(i + 1).drop_last() =~= self@.take(i as int));
            }
            i += 1;
        }
        proof {
            assert(self@.take(n as int) =~= self@);
        }
        out
    }
}

/// The big-endian bytes of a run of 32-bit values.
pub open spec fn i32_seq_bytes(v: Seq<i32>) -> Seq<u8>
    decreases v.len(),
{
    if v.len() == 0 {
        Seq::<u8>::empty()
    } else {
        i32_seq_bytes(v.drop_last()) + be_bytes((v.last() as u32) as nat, 4)
    }
}

/// The 32-bit values of a run of big-endian bytes.
pub open spec fn bytes_i32_seq(raw: Seq<u8>) -> Seq<i32> {
    Seq::new((raw.len() / 4) as nat, |i: int| be_val(raw.subrange(4 * i, 4 * i + 4)) as u32 as i32)
}

impl FitsDataCollection for Vec<i32> {
    open spec fn spec_to_bytes(&self) -> Seq<u8> {
        i32_seq_bytes(self@)
    }

    open spec fn decodes(raw: Seq<u8>) -> bool {
        raw.len() % 4 == 0
    }

    open spec fn decode_ok(raw: Seq<u8>, v: Self) -> bool {
        raw.len() % 4 == 0 && v@ == bytes_i32_seq(raw)
    }

    fn from_bytes(raw: &Vec<u8>) -> (r: Result<Self, FitsHeaderError>) {
        let n = raw.len();
        if n % 4 != 0 {
            return Err(FitsHeaderError::InvalidLength {
                expected: n - n % 4,
                found: n,
                intent: String::from_str("HDU data element run"),
            });
        }
        let count = n / 4;
        let mut out: Vec<i32> = Vec::new();
        let mut i: usize = 0;
        while i < count
            invariant
                i <= count,
                n == raw@.len(),
                n % 4 == 0,
                count == n / 4,
                out@ == bytes_i32_seq(raw@).take(i as int),
            decreases count - i,
        {
            let u = read_be(raw, 4 * i, 4);
            proof {
                crate::bytesutil::lemma_be_val_bound(raw@.subrange(4 * i, 4 * i + 4));
                reveal_with_fuel(crate::bytesutil::pow256, 5);
            }
            out.push((u as u32) as i32);
            assert(out@ =~= bytes_i32_seq(raw@).take(i + 1));
            i += 1;
        }
        assert(out@ =~= bytes_i32_seq(raw@));
        Ok(out)
    }

    fn to_bytes(&self) -> (r: Vec<u8>) {
        let n = self.len();
        let mut out: Vec<u8> = Vec::new();
        let mut i: usize = 0;
        proof {
            assert(i32_seq_bytes(self@.take(0)) =~= Seq::<u8>::empty());
        }
        while i < n
            invariant
                i <= n == self@.len(),
                out@ == i32_seq_bytes(self@.take(i as int)),
            decreases n - i,
        {
            push_be(&mut out, (self[i] as u32) as u64, 4);
            proof {
                assert(self@.take(i + 1).drop_last() =~= self@.take(i as int));
            }
            i += 1;
        }
        proof {
            assert(self@.take(n as int) =~= self@);
        }
        out
    }
}

/// The big-endian bytes of a run of 32-bit patterns (the bit images of
/// 32-bit floats).
pub open spec fn u32_seq_bytes(v: Seq<u32>) -> Seq<u8>
    decreases v.len(),
{
    if v.len() == 0 {
        Seq::<u8>::empty()
    } else {
        u32_seq_bytes(v.drop_last()) + be_bytes(v.last() as nat, 4)
    }
}

/// The 32-bit patterns of a run of big-endian bytes.
pub open spec fn bytes_u32_seq(raw: Seq<u8>) -> Seq<u32> {
    Seq::new((raw.len() / 4) as nat, |i: int| be_val(raw.subrange(4 * i, 4 * i + 4)) as u32)
}

impl FitsDataCollection for Vec<u32> {
    open spec fn spec_to_bytes(&self) -> Seq<u8> {
        u32_seq_bytes(self@)
    }

    open spec fn decodes(raw: Seq<u8>) -> bool {
        raw.len() % 4 == 0
    }

    open spec fn decode_ok(raw: Seq<u8>, v: Self) -> bool {
        raw.len() % 4 == 0 && v@ == bytes_u32_seq(raw)
    }

    fn from_bytes(raw: &Vec<u8>) -> (r: Result<Self, FitsHeaderError>) {
        let n = raw.len();
        if n % 4 != 0 {
            return Err(FitsHeaderError::InvalidLength {
                expected: n - n % 4,
                found: n,
                intent: String::from_str("HDU data element run"),
            });
        }
        let count = n / 4;
        let mut out: Vec<u32> = Vec::new();
        let mut i: usize = 0;
        while i < count
            invariant
                i <= count,
                n == raw@.len(),
                n % 4 == 0,
                count == n / 4,
                out@ == bytes_u32_seq(raw@).take(i as int),
            decreases count - i,
        {
            let u = read_be(raw, 4 * i, 4);
            proof {
                crate::bytesutil::lemma_be_val_bound(raw@.subrange(4 * i, 4 * i + 4));
                reveal_with_fuel(crate::bytesutil::pow256, 5);
            }
            out.push(u as u32);
            assert(out@ =~= bytes_u32_seq(raw@).take(i + 1));
            i += 1;
        }
        assert(out@ =~= bytes_u32_seq(raw@));
        Ok(out)
    }

    fn to_bytes(&self) -> (r: Vec<u8>) {
        let n = self.len();
        let mut out: Vec<u8> = Vec::new();
        let mut i: usize = 0;
        proof {
            assert(u32_seq_bytes(self@.take(0)) =~= Seq::<u8>::empty());
        }
        while i < n
            invariant
                i <= n == self@.len(),
                out@ == u32_seq_bytes(self@.take(i as int)),
            decreases n - i,
        {
            push_be(&mut out, self[i] as u64, 4);
            proof {
                assert(self@.take(i + 1).drop_last() =~= self@.take(i as int));
            }
            i += 1;
        }
        proof {
            assert(self@.take(n as int) =~= self@);
        }
        out
    }
}

/// The big-endian bytes of a run of 64-bit patterns (the bit images of
/// 64-bit floats).
pub open spec fn u64_seq_bytes(v: Seq<u64>) -> Seq<u8>
    decreases v.len(),
{
    if v.len() == 0 {
        Seq::<u8>::empty()
    } else {
        u64_seq_bytes(v.drop_last()) + be_bytes(v.last() as nat, 8)
    }
}

/// The 64-bit patterns of a run of big-endian bytes.
pub open spec fn bytes_u64_seq(raw: Seq<u8>) -> Seq<u64> {
    Seq::new((raw.len() / 8) as nat, |i: int| be_val(raw.subrange(8 * i, 8 * i + 8)) as u64)
}

impl FitsDataCollection for Vec<u64> {
    open spec fn spec_to_bytes(&self) -> Seq<u8> {
        u64_seq_bytes(self@)
    }

    open spec fn decodes(raw: Seq<u8>) -> bool {
        raw.len() % 8 == 0
    }

    open spec fn decode_ok(raw: Seq<u8>, v: Self) -> bool {
        raw.len() % 8 == 0 && v@ == bytes_u64_seq(raw)
    }

    fn from_bytes(raw: &Vec<u8>) -> (r: Result<Self, FitsHeaderError>) {
        let n = raw.len();
        if n % 8 != 0 {
            return Err(FitsHeaderError::InvalidLength {
                expected: n - n % 8,
                found: n,
                intent: String::from_str("HDU data element run"),
            });
        }
        let count = n / 8;
        let mut out: Vec<u64> = Vec::new();
        let mut i: usize = 0;
        while i < count
            invariant
                i <= count,
                n == raw@.len(),
                n % 8 == 0,
                count == n / 8,
                out@ == bytes_u64_seq(raw@).take(i as int),
            decreases count - i,
        {
            let u = read_be(raw, 8 * i, 8);
            proof {
                crate::bytesutil::lemma_be_val_bound(raw@.subrange(8 * i, 8 * i + 8));
                reveal_with_fuel(crate::bytesutil::pow256, 9);
            }
            out.push(u);
            assert(out@ =~= bytes_u64_seq(raw@).take(i + 1));
            i += 1;
        }
        assert(out@ =~= bytes_u64_seq(raw@));
        Ok(out)
    }

    fn to_bytes(&self) -> (r: Vec<u8>) {
        let n = self.len();
        let mut out: Vec<u8> = Vec::new();
        let mut i: usize = 0;
        proof {
            assert(u64_seq_bytes(self@.take(0)) =~= Seq::<u8>::empty());
        }
        while i < n
            invariant
                i <= n == self@.len(),
                out@ == u64_seq_bytes(self@.take(i as int)),
            decreases n - i,
        {
            push_be(&mut out, self[i], 8);
            proof {
                assert(self@.take(i + 1).drop_last() =~= self@.take(i as int));
            }
            i += 1;
        }
        proof {
            assert(self@.take(n as int) =~= self@);
        }
        out
    }
}

/// The name an HDU carries in its extension-name card, with
/// surrounding spaces removed; empty when absent or unreadable.
pub open spec fn spec_hdu_name(cards: Seq<FitsHeaderCard>) -> Seq<char> {
    match find_card(cards, spec_extname_keyword()) {
        Some(i) => match spec_string_value(cards[i].spec_container()) {
            Some(t) => crate::value::chars_of(
                crate::bytesutil::trim_spaces(crate::value::ascii_u8s(t)),
            ),
            None => Seq::<char>::empty(),
        },
        None => Seq::<char>::empty(),
    }
}

/// An HDU is well-formed exactly when its header is.
pub proof fn lemma_hdu_wf(h: Hdu)
    ensures
        h.wf() == h.spec_header().wf(),
        h.spec_header().cards@ == h.spec_header().cards@,
{
}

/// How an HDU serializes, stated over its parts.
pub proof fn lemma_hdu_bytes(h: Hdu)
    ensures
        h.spec_bytes() == h.spec_header().spec_bytes() + h.spec_data() + zeros(
            (round_record(h.spec_data().len()) - h.spec_data().len()) as nat,
        ),
{
}

/// The name an HDU carries is always ASCII text: it is either decoded
/// from ASCII bytes or cached under the ASCII well-formedness of the
/// card.
pub proof fn lemma_hdu_name_ascii(h: Hdu)
    requires
        h.wf(),
    ensures
        vstd::utf8::is_ascii_chars(spec_hdu_name(h.spec_header().cards@)),
{
    lemma_hdu_wf(h);
    let cards = h.spec_header().cards@;
    crate::header::lemma_find_card_range(cards, spec_extname_keyword());
    match find_card(cards, spec_extname_keyword()) {
        Some(i) => {
            crate::header::lemma_card_wf(cards[i]);
            crate::container::lemma_wf_value_encodable(cards[i].spec_container());
            match spec_string_value(cards[i].spec_container()) {
                Some(t) => {
                    assert(vstd::utf8::is_ascii_chars(t)) by {
                        match cards[i].spec_container().spec_value() {
                            Some(v) => {},
                            None => {},
                        }
                    }
                    crate::value::lemma_ascii_u8s_ascii(t);
                    crate::bytesutil::lemma_trim_preserves_ascii(crate::value::ascii_u8s(t));
                    crate::laws::lemma_chars_roundtrip(
                        crate::bytesutil::trim_spaces(crate::value::ascii_u8s(t)),
                    );
                },
                None => {},
            }
        },
        None => {},
    }
}

/// A Header Data Unit within a FITS file.
#[derive(Debug)]
pub struct Hdu {
    /// The header section of the HDU.
    pub header: FitsHeader,
    data_raw: Vec<u8>,
}

impl Hdu {
    /// Structural invariant of the HDU.
    pub closed spec fn wf(&self) -> bool {
        self.header.wf()
    }

    /// The header, as seen by specifications.
    pub closed spec fn spec_header(&self) -> FitsHeader {
        self.header
    }

    /// The raw payload bytes.
    pub closed spec fn spec_data(&self) -> Seq<u8> {
        self.data_raw@
    }

    /// The serialized bytes: the padded header, then the payload,
    /// zero-filled to the next record boundary.
    pub closed spec fn spec_bytes(&self) -> Seq<u8> {
        self.header.spec_bytes() + self.spec_data() + zeros(
            (round_record(self.spec_data().len()) - self.spec_data().len()) as nat,
        )
    }

    /// Constructs an empty HDU.
    pub fn new() -> (r: Hdu)
        ensures
            r.wf(),
            r.spec_header().cards@.len() == 0,
            r.spec_data() == Seq::<u8>::empty(),
    {
        Hdu { header: FitsHeader::new(), data_raw: Vec::new() }
    }

    /// Constructs an HDU from a header and its raw payload.
    pub fn from_parts(header: FitsHeader, data_raw: Vec<u8>) -> (r: Hdu)
        requires
            header.wf(),
        ensures
            r.wf(),
            r.spec_header() == header,
            r.spec_data() == data_raw@,
    {
        Hdu { header, data_raw }
    }

    /// Serializes the contents of the HDU to bytes.
    pub fn to_bytes(&self) -> (r: Vec<u8>)
        requires
            self.wf(),
        ensures
            r@ == self.spec_bytes(),
            r@.len() % 2880 == 0,
    {
        let mut result = self.header.to_bytes();
        crate::bytesutil::push_all(&mut result, &self.data_raw);
        let dlen = self.data_raw.len();
        let rem = dlen % 2880;
        if rem != 0 {
            push_repeat(&mut result, 0, 2880 - rem);
        }
        proof {
            crate::header::lemma_round_record(dlen as nat);
            assert(result@ =~= self.spec_bytes());
            vstd::arithmetic::div_mod::lemma_add_mod_noop(
                self.header.spec_bytes().len() as int,
                (self.spec_bytes().len() - self.header.spec_bytes().len()) as int,
                2880,
            );
            assert(result@.len() % 2880 == 0) by (nonlinear_arith)
                requires
                    result@.len() == self.header.spec_bytes().len() + round_record(dlen as nat),
                    self.header.spec_bytes().len() % 2880 == 0,
                    round_record(dlen as nat) % 2880 == 0,
            ;
        }
        result
    }

    /// Gets the name of the HDU, or an empty string if the name cannot be determined.
    pub fn get_name(&self) -> (r: String)
        requires
            self.wf(),
        ensures
            r@ == spec_hdu_name(self.spec_header().cards@),
    {
        let ek = FitsHeaderKeyword::from_raw(crate::keyword::extname_keyword());
        match self.header.card_index(&ek) {
            Some(i) => {
                let res: Result<String, FitsHeaderError> = self.header.cards[i].peek_value();
                match res {
                    Ok(s) => {
                        proof {
                            crate::header::lemma_card_wf(self.header.cards@[i as int]);
                            crate::container::lemma_wf_value_encodable(
                                self.header.cards@[i as int].spec_container(),
                            );
                        }
                        let b = crate::value::string_to_ascii_bytes(&s);
                        let t = crate::bytesutil::trim_value(&b);
                        proof {
                            crate::value::lemma_ascii_u8s_ascii(s@);
                            crate::bytesutil::lemma_trim_preserves_ascii(b@);
                        }
                        crate::value::ascii_bytes_to_string(&t)
                    },
                    Err(_) => String::new(),
                }
            },
            None => String::new(),
        }
    }

    /// Borrows the header.
    pub fn header_ref(&self) -> (r: &FitsHeader)
        ensures
            r.cards@ == self.spec_header().cards@,
    {
        &self.header
    }

    /// Gets the data section of the HDU.
    pub fn data_raw(&self) -> (r: &Vec<u8>)
        ensures
            r@ == self.spec_data(),
    {
        &self.data_raw
    }

    /// Sets the data section of the HDU.
    pub fn set_data_raw(&mut self, data_raw: Vec<u8>)
        ensures
            final(self).spec_data() == data_raw@,
            final(self).spec_header() == old(self).spec_header(),
    {
        self.data_raw = data_raw;
    }

    /// Attempts to create a new FitsDataCollection from the data section of the HDU.
    pub fn get_data<T: FitsDataCollection>(&self) -> (r: Result<T, FitsHeaderError>)
        ensures
            match r {
                Ok(v) => T::decode_ok(self.spec_data(), v),
                Err(_) => !T::decodes(self.spec_data()),
            },
    {
        T::from_bytes(&self.data_raw)
    }

    /// Sets the data section of the HDU from a typed collection.
    pub fn set_data<T: FitsDataCollection>(&mut self, data: &T)
        ensures
            final(self).spec_data() == data.spec_to_bytes(),
            final(self).spec_header() == old(self).spec_header(),
    {
        self.data_raw = data.to_bytes();
    }

    /// Creates a Vec containing the dimensions of the data section of the HDU as defined by the NAXIS keywords.
    pub fn get_dimensions(&self) -> (r: Vec<usize>)
        requires
            self.wf(),
        ensures
            r@.len() == spec_naxis(self.spec_header().cards@),
            forall|i: int|
                0 <= i < r@.len() ==> #[trigger] r@[i] == spec_axis(self.spec_header().cards@, i + 1),
    {
        let nk = FitsHeaderKeyword::from_raw(naxis_keyword());
        let naxis = peek_u16_of(&self.header, &nk);
        let mut result: Vec<usize> = Vec::new();
        if naxis == 0 {
            return result;
        }
        let mut x: u32 = 1;
        while x <= naxis as u32
            invariant
                1 <= x <= naxis + 1,
                self.wf(),
                spec_naxis(self.header.cards@) == naxis,
                result@.len() == x - 1,
                forall|i: int|
                    0 <= i < x - 1 ==> #[trigger] result@[i] == spec_axis(
                        self.header.cards@,
                        i + 1,
                    ),
            decreases naxis + 1 - x,
        {
            let v = peek_axis(&self.header, x as u16);
            result.push(v as usize);
            x += 1;
        }
        result
    }
}

impl Default for Hdu {
    /// An empty HDU.
    fn default() -> (r: Hdu)
        ensures
            r.wf(),
            r.spec_header().cards@.len() == 0,
            r.spec_data() == Seq::<u8>::empty(),
    {
        Hdu { header: FitsHeader { cards: Vec::new() }, data_raw: Vec::new() }
    }
}

} // verus!
