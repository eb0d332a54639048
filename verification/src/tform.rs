//! The TFORM column format descriptor: repeat count, element type
//! letter and free-form trailing annotation, quoted as a string field.

use vstd::prelude::*;
use vstd::string::{StringExecFns, StringExecFnsIsAscii};

use crate::bytesutil::{
    all_ascii, check_all_ascii, copy_range, dec_repr, dec_val, drop_trailing_spaces, is_digit,
    push_all, push_decimal, push_repeat, spaces, trim_trailing, QUOTE, SPACE,
};
use crate::error::FitsHeaderError;
use crate::value::{ascii_u8s, chars_of, FitsHeaderValue, HeaderValue};

verus! {

/// An enumeration of valid types corresponding to the TFORM keyword.
#[derive(Debug, Clone, Copy, PartialEq, Eq, Structural)]
pub enum TFormType {
    /// `L`: one logical byte.
    Logical,
    /// `X`: a bit-packed field; its width is format specific and it is
    /// not supported by the column decoder.
    Bit,
    /// `B`: an unsigned byte.
    UnsignedByte,
    /// `I`: a signed 16 bit integer.
    I16,
    /// `J`: a signed 32 bit integer.
    I32,
    /// `A`: a character.
    Character,
    /// `E`: a 32 bit float.
    F32,
    /// `D`: a 64 bit float.
    F64,
    /// `C`: a 64 bit complex number.
    C64,
    /// `M`: a 128 bit complex number.
    C128,
    /// `P`: an array descriptor.
    ArrayDescriptor,
}

/// The type letter of each element type.
pub open spec fn spec_type_letter(t: TFormType) -> u8 {
    match t {
        TFormType::Logical => 76,  // L
        TFormType::Bit => 88,  // X
        TFormType::UnsignedByte => 66,  // B
        TFormType::I16 => 73,  // I
        TFormType::I32 => 74,  // J
        TFormType::Character => 65,  // A
        TFormType::F32 => 69,  // E
        TFormType::F64 => 68,  // D
        TFormType::C64 => 67,  // C
        TFormType::C128 => 77,  // M
        TFormType::ArrayDescriptor => 80,  // P
    }
}

/// The element type a type letter stands for, if any.
pub open spec fn spec_letter_type(b: u8) -> Option<TFormType> {
    if b == 76 {
        Some(TFormType::Logical)
    } else if b == 88 {
        Some(TFormType::Bit)
    } else if b == 66 {
        Some(TFormType::UnsignedByte)
    } else if b == 73 {
        Some(TFormType::I16)
    } else if b == 74 {
        Some(TFormType::I32)
    } else if b == 65 {
        Some(TFormType::Character)
    } else if b == 69 {
        Some(TFormType::F32)
    } else if b == 68 {
        Some(TFormType::F64)
    } else if b == 67 {
        Some(TFormType::C64)
    } else if b == 77 {
        Some(TFormType::C128)
    } else if b == 80 {
        Some(TFormType::ArrayDescriptor)
    } else {
        None
    }
}

/// Bytes per element of each type; the bit-packed type has no fixed
/// byte width and is given 0 here, and the descriptor fails loudly
/// wherever that width would be needed.
pub open spec fn spec_type_width(t: TFormType) -> nat {
    match t {
        TFormType::Logical => 1,
        TFormType::Bit => 0,
        TFormType::UnsignedByte => 1,
        TFormType::I16 => 2,
        TFormType::I32 => 4,
        TFormType::Character => 1,
        TFormType::F32 => 4,
        TFormType::F64 => 8,
        TFormType::C64 => 8,
        TFormType::C128 => 16,
        TFormType::ArrayDescriptor => 8,
    }
}

impl TFormType {
    /// The element type a type letter stands for, if any.
    pub fn from_letter(b: u8) -> (r: Option<TFormType>)
        ensures
            r == spec_letter_type(b),
    {
        if b == 76 {
            Some(TFormType::Logical)
        } else if b == 88 {
            Some(TFormType::Bit)
        } else if b == 66 {
            Some(TFormType::UnsignedByte)
        } else if b == 73 {
            Some(TFormType::I16)
        } else if b == 74 {
            Some(TFormType::I32)
        } else if b == 65 {
            Some(TFormType::Character)
        } else if b == 69 {
            Some(TFormType::F32)
        } else if b == 68 {
            Some(TFormType::F64)
        } else if b == 67 {
            Some(TFormType::C64)
        } else if b == 77 {
            Some(TFormType::C128)
        } else if b == 80 {
            Some(TFormType::ArrayDescriptor)
        } else {
            None
        }
    }

    /// The type letter of this element type.
    pub fn letter(&self) -> (r: u8)
        ensures
            r == spec_type_letter(*self),
    {
        match self {
            TFormType::Logical => 76,
            TFormType::Bit => 88,
            TFormType::UnsignedByte => 66,
            TFormType::I16 => 73,
            TFormType::I32 => 74,
            TFormType::Character => 65,
            TFormType::F32 => 69,
            TFormType::F64 => 68,
            TFormType::C64 => 67,
            TFormType::C128 => 77,
            TFormType::ArrayDescriptor => 80,
        }
    }

    /// Bytes per element; the bit-packed type has no fixed byte width.
    pub fn width(&self) -> (r: usize)
        requires
            *self != TFormType::Bit,
        ensures
            r == spec_type_width(*self),
    {
        match self {
            TFormType::Logical => 1,
            TFormType::Bit => 0,
            TFormType::UnsignedByte => 1,
            TFormType::I16 => 2,
            TFormType::I32 => 4,
            TFormType::Character => 1,
            TFormType::F32 => 4,
            TFormType::F64 => 8,
            TFormType::C64 => 8,
            TFormType::C128 => 16,
            TFormType::ArrayDescriptor => 8,
        }
    }
}

/// A value corresponding to the TFORM keyword.
#[derive(Debug)]
pub struct TForm {
    /// The repeat count.
    pub r: usize,
    /// The field type.
    pub t: TFormType,
    /// Undefined additional characters.
    pub a: String,
}

/// End of the digit run that starts at position `i`; the scan never
/// looks at the final byte, which is expected to be the closing quote.
pub open spec fn digit_run_end(s: Seq<u8>, i: int) -> int
    decreases s.len() - i,
{
    if i >= s.len() - 1 {
        i
    } else if is_digit(s[i]) {
        digit_run_end(s, i + 1)
    } else {
        i
    }
}

/// What the TFORM codec decodes from trimmed bytes: repeat count,
/// element type and trailing annotation with its trailing spaces
/// removed. An unparsable or missing repeat count falls back to 1.
pub open spec fn spec_decode_tform(raw: Seq<u8>) -> Option<(int, TFormType, Seq<u8>)> {
    if raw.len() < 2 {
        None
    } else {
        let j = digit_run_end(raw, 1);
        if j >= raw.len() - 1 {
            None
        } else {
            match spec_letter_type(raw[j]) {
                Some(t) => {
                    let digits = raw.subrange(1, j);
                    let rep = if digits.len() > 0 && dec_val(digits) <= 0xFFFF_FFFF {
                        dec_val(digits)
                    } else {
                        1
                    };
                    let araw = raw.subrange(j + 1, raw.len() - 1);
                    if all_ascii(araw) {
                        let a = drop_trailing_spaces(araw);
                        if 2 + dec_repr(rep as nat).len() + a.len() <= 69 {
                            Some((rep, t, a))
                        } else {
                            None
                        }
                    } else {
                        None
                    }
                },
                None => None,
            }
        }
    }
}

/// The 70-byte field of a TFORM descriptor: quote, repeat count,
/// type letter, annotation, and the closing quote at column 10 at the
/// earliest.
pub open spec fn spec_tform_field(rep: nat, t: TFormType, a: Seq<u8>) -> Seq<u8> {
    let core = seq![QUOTE] + dec_repr(rep) + seq![spec_type_letter(t)] + a;
    let qpos = if core.len() < 9 {
        9
    } else {
        core.len()
    };
    core + spaces((qpos - core.len()) as nat) + seq![QUOTE] + spaces((69 - qpos) as nat)
}

/// True when the descriptor fits its 70-byte field.
pub open spec fn tform_encodable(v: TForm) -> bool {
    vstd::utf8::is_ascii_chars(v.a@) && 2 + dec_repr(v.r as nat).len() + v.a@.len() <= 69
}

/// The 70-byte field of the descriptor.
pub open spec fn spec_encode_tform(v: TForm) -> Seq<u8> {
    spec_tform_field(v.r as nat, v.t, ascii_u8s(v.a@))
}

impl TForm {
    /// Gets the number of bytes required by the column. The bit-packed
    /// type has no fixed byte width and is left out.
    pub fn value(&self) -> (r: usize)
        requires
            self.t != TFormType::Bit,
            self.r * spec_type_width(self.t) <= usize::MAX,
        ensures
            r == self.r * spec_type_width(self.t),
    {
        let w = self.t.width();
        self.r * w
    }
}

impl FitsHeaderValue for TForm {
    open spec fn decodes(raw: Seq<u8>) -> bool {
        spec_decode_tform(raw) is Some
    }

    open spec fn decode_ok(raw: Seq<u8>, v: Self) -> bool {
        match spec_decode_tform(raw) {
            Some((rep, t, a)) => v.r == rep && v.t == t && v.a@ == chars_of(a),
            None => false,
        }
    }

    open spec fn encodable(&self) -> bool {
        tform_encodable(*self)
    }

    open spec fn spec_encode(&self) -> Seq<u8> {
        spec_encode_tform(*self)
    }

    open spec fn value_of(x: Self, v: HeaderValue) -> bool {
        match v {
            HeaderValue::TFormValue(y) => y.r == x.r && y.t == x.t && y.a@ == x.a@,
            _ => false,
        }
    }

    open spec fn kind_matches(v: HeaderValue) -> bool {
        v is TFormValue
    }

    fn from_bytes(raw: Vec<u8>) -> (r: Result<Self, FitsHeaderError>) {
        let n = raw.len();
        if n < 2 {
            return Err(FitsHeaderError::DeserializationError {
                found: raw,
                intent: String::from_str("header card TFORM value"),
            });
        }
        let mut i: usize = 1;
        while i < n - 1 && 48 <= raw[i] && raw[i] <= 57
            invariant
                1 <= i <= n - 1,
                n == raw@.len(),
                n >= 2,
                digit_run_end(raw@, 1) == digit_run_end(raw@, i as int),
                forall|j: int| 1 <= j < i ==> is_digit(#[trigger] raw@[j]),
            decreases n - i,
        {
            i += 1;
        }
        assert(digit_run_end(raw@, 1) == i);
        if i >= n - 1 {
            return Err(FitsHeaderError::DeserializationError {
                found: raw,
                intent: String::from_str("header card TFORM value"),
            });
        }
        let t = match TFormType::from_letter(raw[i]) {
            Some(t) => t,
            None => {
                return Err(FitsHeaderError::DeserializationError {
                    found: raw,
                    intent: String::from_str("header card TFORM value"),
                });
            },
        };
        let digits = copy_range(&raw, 1, i);
        let rep: u64 = match crate::bytesutil::parse_uint(&digits, 0xFFFF_FFFF) {
            Some(v) => v,
            None => 1,
        };
        proof {
            let dseq = raw@.subrange(1, i as int);
            if dseq.len() > 0 {
                assert(is_digit(dseq[0]));
                assert(dseq[0] != crate::bytesutil::PLUS);
            }
        }
        let araw = copy_range(&raw, i + 1, n - 1);
        if !check_all_ascii(&araw) {
            return Err(FitsHeaderError::DeserializationError {
                found: raw,
                intent: String::from_str("header card TFORM value"),
            });
        }
        let abytes = trim_trailing(&araw);
        let mut repd: Vec<u8> = Vec::new();
        push_decimal(&mut repd, rep);
        if abytes.len() > 67 || repd.len() > 67 - abytes.len() {
            return Err(FitsHeaderError::DeserializationError {
                found: raw,
                intent: String::from_str("header card TFORM value"),
            });
        }
        proof {
            crate::bytesutil::lemma_drop_trailing_spaces_is_prefix(araw@);
            assert(forall|k: int|
                0 <= k < abytes@.len() ==> abytes@[k] == araw@[k] && #[trigger] abytes@[k] < 128);
        }
        let a = crate::value::ascii_bytes_to_string(&abytes);
        Ok(TForm { r: rep as usize, t, a })
    }

    fn to_bytes(&self) -> (r: Vec<u8>) {
        let mut core: Vec<u8> = Vec::new();
        core.push(QUOTE);
        push_decimal(&mut core, self.r as u64);
        core.push(self.t.letter());
        let abytes = crate::value::string_to_ascii_bytes(&self.a);
        push_all(&mut core, &abytes);
        assert(core@ =~= seq![QUOTE] + dec_repr(self.r as nat) + seq![spec_type_letter(self.t)]
            + ascii_u8s(self.a@));
        let ghost corelen = core@.len();
        let qpos: usize = if core.len() < 9 {
            9
        } else {
            core.len()
        };
        let pad = qpos - core.len();
        push_repeat(&mut core, SPACE, pad);
        core.push(QUOTE);
        push_repeat(&mut core, SPACE, 69 - qpos);
        assert(core@ =~= self.spec_encode());
        core
    }

    fn check_encodable(&self) -> (b: bool) {
        if !self.a.is_ascii() {
            return false;
        }
        let ab = crate::value::string_to_ascii_bytes(&self.a);
        let mut repd: Vec<u8> = Vec::new();
        push_decimal(&mut repd, self.r as u64);
        ab.len() <= 67 && repd.len() <= 67 - ab.len()
    }

    fn to_value(&self) -> (v: HeaderValue) {
        HeaderValue::TFormValue(TForm { r: self.r, t: self.t, a: self.a.clone() })
    }

    fn of_value(v: &HeaderValue) -> (r: Option<Self>) {
        match v {
            HeaderValue::TFormValue(y) => Some(TForm { r: y.r, t: y.t, a: y.a.clone() }),
            _ => None,
        }
    }
}


/// A decoded table column, one variant per supported element kind;
/// float elements are carried as their big-endian bit patterns.
#[derive(Debug)]
pub enum FitsColumn {
    /// Elements of the logical kind: one byte each, nonzero meaning true.
    Logical(Vec<bool>),
    /// Unsigned byte elements.
    Bytes(Vec<u8>),
    /// Character elements, one byte each.
    Chars(Vec<u8>),
    /// Signed 16 bit integers.
    I16(Vec<i16>),
    /// Signed 32 bit integers.
    I32(Vec<i32>),
    /// Bit patterns of 32 bit floats.
    F32Bits(Vec<u32>),
    /// Bit patterns of 64 bit floats.
    F64Bits(Vec<u64>),
}

/// Byte offset of element `i` of a column: the element's row, then the
/// column's start within the row, then the repeat slot.
pub open spec fn col_elem_off(start: int, row_len: int, rep: int, width: int, i: int) -> int {
    row_len * (i / rep) + start + (i % rep) * width
}

/// The big-endian value of element `i` of a column.
pub open spec fn col_elem_val(
    data: Seq<u8>,
    start: int,
    row_len: int,
    rep: int,
    width: int,
    i: int,
) -> nat {
    crate::bytesutil::be_val(
        data.subrange(
            col_elem_off(start, row_len, rep, width, i),
            col_elem_off(start, row_len, rep, width, i) + width,
        ),
    )
}

/// True when the element kind or repeat count cannot be decoded:
/// the bit-packed, complex and array-descriptor kinds, and a zero
/// repeat count.
pub open spec fn column_unsupported(t: TFormType, rep: int) -> bool {
    ||| t == TFormType::Bit
    ||| t == TFormType::C64
    ||| t == TFormType::C128
    ||| t == TFormType::ArrayDescriptor
    ||| rep == 0
}

/// True when `col` holds exactly the elements of the column described
/// by `(rep, t, start)` over `data`: `rows * rep` elements, each the
/// big-endian value of its `width`-byte slot, narrowed to the kind.
pub open spec fn column_decode_ok(
    col: FitsColumn,
    data: Seq<u8>,
    rep: int,
    t: TFormType,
    start: int,
    row_len: int,
    rows: int,
) -> bool {
    let width = spec_type_width(t) as int;
    let total = rows * rep;
    match col {
        FitsColumn::Logical(v) => t == TFormType::Logical && v@ == Seq::new(
            total as nat,
            |i: int| col_elem_val(data, start, row_len, rep, 1, i) != 0,
        ),
        FitsColumn::Bytes(v) => t == TFormType::UnsignedByte && v@ == Seq::new(
            total as nat,
            |i: int| col_elem_val(data, start, row_len, rep, 1, i) as u8,
        ),
        FitsColumn::Chars(v) => t == TFormType::Character && v@ == Seq::new(
            total as nat,
            |i: int| col_elem_val(data, start, row_len, rep, 1, i) as u8,
        ),
        FitsColumn::I16(v) => t == TFormType::I16 && v@ == Seq::new(
            total as nat,
            |i: int| col_elem_val(data, start, row_len, rep, 2, i) as u16 as i16,
        ),
        FitsColumn::I32(v) => t == TFormType::I32 && v@ == Seq::new(
            total as nat,
            |i: int| col_elem_val(data, start, row_len, rep, 4, i) as u32 as i32,
        ),
        FitsColumn::F32Bits(v) => t == TFormType::F32 && v@ == Seq::new(
            total as nat,
            |i: int| col_elem_val(data, start, row_len, rep, 4, i) as u32,
        ),
        FitsColumn::F64Bits(v) => t == TFormType::F64 && v@ == Seq::new(
            total as nat,
            |i: int| col_elem_val(data, start, row_len, rep, 8, i) as u64,
        ),
    }
}

/// True when every element of the column lies inside the data buffer.
pub open spec fn col_in_bounds(
    data_len: int,
    start: int,
    row_len: int,
    rep: int,
    width: int,
    rows: int,
) -> bool {
    forall|i: int|
        0 <= i < rows * rep ==> 0 <= #[trigger] col_elem_off(start, row_len, rep, width, i)
            && col_elem_off(start, row_len, rep, width, i) + width <= data_len
}

impl TForm {
    /// Creates a column of values from the given data: for each of
    /// `num_rows` rows, the `repeat`-many elements of this descriptor's
    /// kind found at `column_start` within the row. Fails explicitly on
    /// the bit-packed, complex and array-descriptor kinds, on a zero
    /// repeat count, and when an element would fall outside the data.
    pub fn create_column(
        &self,
        data: &Vec<u8>,
        column_start: usize,
        row_len: usize,
        num_rows: usize,
    ) -> (r: Option<FitsColumn>)
        ensures
            match r {
                Some(col) => {
                    &&& self.r >= 1
                    &&& col_in_bounds(
                        data@.len() as int,
                        column_start as int,
                        row_len as int,
                        self.r as int,
                        spec_type_width(self.t) as int,
                        num_rows as int,
                    )
                    &&& column_decode_ok(
                        col,
                        data@,
                        self.r as int,
                        self.t,
                        column_start as int,
                        row_len as int,
                        num_rows as int,
                    )
                },
                None => column_unsupported(self.t, self.r as int) || !col_in_bounds(
                    data@.len() as int,
                    column_start as int,
                    row_len as int,
                    self.r as int,
                    spec_type_width(self.t) as int,
                    num_rows as int,
                ),
            },
    {
        let width: usize = match self.t {
            TFormType::Logical => 1,
            TFormType::UnsignedByte => 1,
            TFormType::Character => 1,
            TFormType::I16 => 2,
            TFormType::I32 => 4,
            TFormType::F32 => 4,
            TFormType::F64 => 8,
            _ => {
                return None;
            },
        };
        if self.r == 0 {
            return None;
        }
        let rep = self.r;
        // check bounds of every element up front
        if num_rows > 0 {
            if row_len > (usize::MAX - column_start) / num_rows {
                if !self.check_bounds(data, column_start, row_len, num_rows, width) {
                    return None;
                }
            } else if !self.check_bounds(data, column_start, row_len, num_rows, width) {
                return None;
            }
        }
        let ghost gw = width as int;
        let ghost gs = column_start as int;
        let ghost grl = row_len as int;
        let ghost grep = rep as int;
        let ghost total = num_rows as int * grep;
        let dn = data.len();
        let mut row: usize = 0;
        match self.t {
            TFormType::Logical => {
                let mut out: Vec<bool> = Vec::new();
                while row < num_rows
                    invariant
                        row <= num_rows,
                        grep == rep == self.r >= 1,
                        gw == 1,
                        width == 1,
                        self.t == TFormType::Logical,
                        gs == column_start,
                        grl == row_len,
                        col_in_bounds(data@.len() as int, gs, grl, grep, gw, num_rows as int),
                        dn == data@.len(),
                        out@ == Seq::new(
                            (row * rep) as nat,
                            |i: int| col_elem_val(data@, gs, grl, grep, gw, i) != 0,
                        ),
                    decreases num_rows - row,
                {
                    let mut k: usize = 0;
                    while k < rep
                        invariant
                            row < num_rows,
                            k <= rep,
                            grep == rep == self.r >= 1,
                            gw == 1,
                            width == 1,
                            self.t == TFormType::Logical,
                            gs == column_start,
                            grl == row_len,
                            col_in_bounds(
                                data@.len() as int,
                                gs,
                                grl,
                                grep,
                                gw,
                                num_rows as int,
                            ),
                            dn == data@.len(),
                            out@ == Seq::new(
                                (row * rep + k) as nat,
                                |i: int| col_elem_val(data@, gs, grl, grep, gw, i) != 0,
                            ),
                        decreases rep - k,
                    {
                        let ghost i = row * rep + k;
                        proof {
                            lemma_elem_index(grep, row as int, k as int);
                            assert(col_elem_off(gs, grl, grep, gw, i) == grl * (row as int) + gs
                                + (k as int) * gw);
                            assert(0 <= i < num_rows as int * grep) by (nonlinear_arith)
                                requires
                                    i == (row as int) * grep + k,
                                    0 <= k < grep,
                                    0 <= row < num_rows as int,
                            ;
                            assert(col_elem_off(gs, grl, grep, gw, i) + gw <= data@.len());
                            assert(grl * (row as int) >= 0 && (k as int) * gw >= 0) by (
                            nonlinear_arith)
                                requires
                                    grl >= 0,
                                    row as int >= 0,
                                    k as int >= 0,
                                    gw >= 1,
                            ;
                            assert(grl * (row as int) + gs + (k as int) * gw + gw <= dn);
                            assert(grl * (row as int) <= dn && (k as int) * gw <= dn);
                        }
                        let off = row_len * row + column_start + k * width;
                        let v = crate::bytesutil::read_be(data, off, 1);
                        out.push(v != 0);
                        proof {
                            assert(out@ =~= Seq::new(
                                (row * rep + k + 1) as nat,
                                |i: int| col_elem_val(data@, gs, grl, grep, gw, i) != 0,
                            ));
                        }
                        k += 1;
                    }
                    proof {
                        assert((row as int + 1) * grep == (row as int) * grep + grep) by (
                        nonlinear_arith);
                    }
                    row += 1;
                }
                proof {
                    assert(out@ =~= Seq::new(
                        total as nat,
                        |i: int| col_elem_val(data@, gs, grl, grep, gw, i) != 0,
                    ));
                }
                Some(FitsColumn::Logical(out))
            },
            _ => {
                let mut out64: Vec<u64> = Vec::new();
                while row < num_rows
                    invariant
                        row <= num_rows,
                        grep == rep == self.r >= 1,
                        gw == width as int,
                        1 <= width <= 8,
                        gs == column_start,
                        grl == row_len,
                        col_in_bounds(data@.len() as int, gs, grl, grep, gw, num_rows as int),
                        dn == data@.len(),
                        out64@ == Seq::new(
                            (row * rep) as nat,
                            |i: int| col_elem_val(data@, gs, grl, grep, gw, i) as u64,
                        ),
                    decreases num_rows - row,
                {
                    let mut k: usize = 0;
                    while k < rep
                        invariant
                            row < num_rows,
                            k <= rep,
                            grep == rep == self.r >= 1,
                            gw == width as int,
                            1 <= width <= 8,
                            gs == column_start,
                            grl == row_len,
                            col_in_bounds(
                                data@.len() as int,
                                gs,
                                grl,
                                grep,
                                gw,
                                num_rows as int,
                            ),
                            dn == data@.len(),
                            out64@ == Seq::new(
                                (row * rep + k) as nat,
                                |i: int| col_elem_val(data@, gs, grl, grep, gw, i) as u64,
                            ),
                        decreases rep - k,
                    {
                        let ghost i = row * rep + k;
                        proof {
                            lemma_elem_index(grep, row as int, k as int);
                            assert(col_elem_off(gs, grl, grep, gw, i) == grl * (row as int) + gs
                                + (k as int) * gw);
                            assert(0 <= i < num_rows as int * grep) by (nonlinear_arith)
                                requires
                                    i == (row as int) * grep + k,
                                    0 <= k < grep,
                                    0 <= row < num_rows as int,
                            ;
                            assert(col_elem_off(gs, grl, grep, gw, i) + gw <= data@.len());
                            assert(grl * (row as int) >= 0 && (k as int) * gw >= 0) by (
                            nonlinear_arith)
                                requires
                                    grl >= 0,
                                    row as int >= 0,
                                    k as int >= 0,
                                    gw >= 1,
                            ;
                            assert(grl * (row as int) + gs + (k as int) * gw + gw <= dn);
                            assert(grl * (row as int) <= dn && (k as int) * gw <= dn);
                            crate::bytesutil::lemma_be_val_bound(
                                data@.subrange(
                                    col_elem_off(gs, grl, grep, gw, i),
                                    col_elem_off(gs, grl, grep, gw, i) + gw,
                                ),
                            );
                        }
                        let off = row_len * row + column_start + k * width;
                        let v = crate::bytesutil::read_be(data, off, width);
                        out64.push(v);
                        proof {
                            assert(out64@ =~= Seq::new(
                                (row * rep + k + 1) as nat,
                                |i: int| col_elem_val(data@, gs, grl, grep, gw, i) as u64,
                            ));
                        }
                        k += 1;
                    }
                    proof {
                        assert((row as int + 1) * grep == (row as int) * grep + grep) by (
                        nonlinear_arith);
                    }
                    row += 1;
                }
                proof {
                    assert(out64@ =~= Seq::new(
                        total as nat,
                        |i: int| col_elem_val(data@, gs, grl, grep, gw, i) as u64,
                    ));
                    assert forall|i: int| 0 <= i < out64@.len() implies #[trigger] col_elem_val(
                        data@,
                        gs,
                        grl,
                        grep,
                        gw,
                        i,
                    ) < crate::bytesutil::pow256(gw as nat) by {
                        assert(col_elem_off(gs, grl, grep, gw, i) + gw <= data@.len());
                        crate::bytesutil::lemma_be_val_bound(
                            data@.subrange(
                                col_elem_off(gs, grl, grep, gw, i),
                                col_elem_off(gs, grl, grep, gw, i) + gw,
                            ),
                        );
                    }
                }
                narrow_column(self.t, out64, Ghost(data@), Ghost(gs), Ghost(grl), Ghost(grep))
            },
        }
    }

    /// Checks that every element of the column lies inside the data.
    fn check_bounds(
        &self,
        data: &Vec<u8>,
        column_start: usize,
        row_len: usize,
        num_rows: usize,
        width: usize,
    ) -> (r: bool)
        requires
            self.r >= 1,
            width >= 1,
        ensures
            r == col_in_bounds(
                data@.len() as int,
                column_start as int,
                row_len as int,
                self.r as int,
                width as int,
                num_rows as int,
            ),
    {
        let rep = self.r;
        let n = data.len();
        if num_rows == 0 {
            proof {
                assert(col_in_bounds(
                    data@.len() as int,
                    column_start as int,
                    row_len as int,
                    rep as int,
                    width as int,
                    0,
                ));
            }
            return true;
        }
        // the farthest element is repeat slot rep-1 of row num_rows-1;
        // every offset is monotone in the row and slot, so checking
        // the last one bounds them all, provided the arithmetic fits
        let last_row = num_rows - 1;
        // row_len * last_row
        let a = match row_len.checked_mul(last_row) {
            Some(a) => a,
            None => {
                proof {
                    lemma_col_oob(
                        data@.len() as int,
                        column_start as int,
                        row_len as int,
                        rep as int,
                        width as int,
                        num_rows as int,
                    );
                }
                return false;
            },
        };
        let b = match (rep - 1).checked_mul(width) {
            Some(b) => b,
            None => {
                proof {
                    lemma_col_oob(
                        data@.len() as int,
                        column_start as int,
                        row_len as int,
                        rep as int,
                        width as int,
                        num_rows as int,
                    );
                }
                return false;
            },
        };
        let c = match a.checked_add(column_start) {
            Some(c) => c,
            None => {
                proof {
                    lemma_col_oob(
                        data@.len() as int,
                        column_start as int,
                        row_len as int,
                        rep as int,
                        width as int,
                        num_rows as int,
                    );
                }
                return false;
            },
        };
        let d = match c.checked_add(b) {
            Some(d) => d,
            None => {
                proof {
                    lemma_col_oob(
                        data@.len() as int,
                        column_start as int,
                        row_len as int,
                        rep as int,
                        width as int,
                        num_rows as int,
                    );
                }
                return false;
            },
        };
        let ok = width <= n && d <= n - width;
        proof {
            lemma_col_bounds_from_last(
                data@.len() as int,
                column_start as int,
                row_len as int,
                rep as int,
                width as int,
                num_rows as int,
            );
        }
        ok
    }
}

/// Element `row * rep + k` decomposes into its row and slot.
proof fn lemma_elem_index(rep: int, row: int, k: int)
    requires
        rep >= 1,
        row >= 0,
        0 <= k < rep,
    ensures
        (row * rep + k) / rep == row,
        (row * rep + k) % rep == k,
{
    vstd::arithmetic::div_mod::lemma_fundamental_div_mod_converse(row * rep + k, rep, row, k);
}

/// The farthest element's end bounds every element's end.
proof fn lemma_col_bounds_from_last(
    data_len: int,
    start: int,
    row_len: int,
    rep: int,
    width: int,
    rows: int,
)
    requires
        rep >= 1,
        width >= 1,
        rows >= 1,
        row_len >= 0,
        start >= 0,
    ensures
        (row_len * (rows - 1) + start + (rep - 1) * width + width <= data_len) ==> col_in_bounds(
            data_len,
            start,
            row_len,
            rep,
            width,
            rows,
        ),
        col_in_bounds(data_len, start, row_len, rep, width, rows) ==> (row_len * (rows - 1)
            + start + (rep - 1) * width + width <= data_len),
{
    if row_len * (rows - 1) + start + (rep - 1) * width + width <= data_len {
        assert forall|i: int| 0 <= i < rows * rep implies 0 <= #[trigger] col_elem_off(
            start,
            row_len,
            rep,
            width,
            i,
        ) && col_elem_off(start, row_len, rep, width, i) + width <= data_len by {
            vstd::arithmetic::div_mod::lemma_fundamental_div_mod(i, rep);
            vstd::arithmetic::div_mod::lemma_mod_bound(i, rep);
            vstd::arithmetic::div_mod::lemma_div_pos_is_pos(i, rep);
            let r0 = i / rep;
            let k0 = i % rep;
            assert(r0 <= rows - 1) by (nonlinear_arith)
                requires
                    i < rows * rep,
                    i == rep * r0 + k0,
                    0 <= k0 < rep,
                    rep >= 1,
                    r0 >= 0,
            ;
            assert(row_len * r0 <= row_len * (rows - 1)) by (nonlinear_arith)
                requires
                    r0 <= rows - 1,
                    row_len >= 0,
            ;
            assert(k0 * width <= (rep - 1) * width) by (nonlinear_arith)
                requires
                    k0 <= rep - 1,
                    width >= 1,
            ;
            assert(row_len * r0 >= 0) by (nonlinear_arith)
                requires
                    row_len >= 0,
                    r0 >= 0,
            ;
            assert(k0 * width >= 0) by (nonlinear_arith)
                requires
                    k0 >= 0,
                    width >= 1,
            ;
        }
    }
    if col_in_bounds(data_len, start, row_len, rep, width, rows) {
        let last = rows * rep - 1;
        assert(0 <= last < rows * rep && last == (rows - 1) * rep + (rep - 1)) by (
        nonlinear_arith)
            requires
                rows >= 1,
                rep >= 1,
                last == rows * rep - 1,
        ;
        assert(col_elem_off(start, row_len, rep, width, last) + width <= data_len);
        vstd::arithmetic::div_mod::lemma_fundamental_div_mod_converse(
            last,
            rep,
            rows - 1,
            rep - 1,
        );
    }
}

/// When the last element's placement cannot even be computed in a
/// machine word, some element must fall outside any real buffer.
proof fn lemma_col_oob(
    data_len: int,
    start: int,
    row_len: int,
    rep: int,
    width: int,
    rows: int,
)
    requires
        rep >= 1,
        width >= 1,
        rows >= 1,
        row_len >= 0,
        start >= 0,
        data_len <= usize::MAX,
        row_len * (rows - 1) + start + (rep - 1) * width + width > usize::MAX,
    ensures
        !col_in_bounds(data_len, start, row_len, rep, width, rows),
{
    lemma_col_bounds_from_last(data_len, start, row_len, rep, width, rows);
}

/// Wraps the widened element values in the column variant of the
/// element kind.
fn narrow_column(
    t: TFormType,
    vals: Vec<u64>,
    Ghost(data): Ghost<Seq<u8>>,
    Ghost(gs): Ghost<int>,
    Ghost(grl): Ghost<int>,
    Ghost(grep): Ghost<int>,
) -> (r: Option<FitsColumn>)
    requires
        t == TFormType::UnsignedByte || t == TFormType::Character || t == TFormType::I16 || t
            == TFormType::I32 || t == TFormType::F32 || t == TFormType::F64,
        vals@ == Seq::new(
            vals@.len(),
            |i: int| col_elem_val(data, gs, grl, grep, spec_type_width(t) as int, i) as u64,
        ),
        forall|i: int|
            0 <= i < vals@.len() ==> #[trigger] col_elem_val(
                data,
                gs,
                grl,
                grep,
                spec_type_width(t) as int,
                i,
            ) < crate::bytesutil::pow256(spec_type_width(t)),
    ensures
        match r {
            Some(col) => match col {
                FitsColumn::Bytes(v) => t == TFormType::UnsignedByte && v@ == Seq::new(
                    vals@.len(),
                    |i: int| col_elem_val(data, gs, grl, grep, 1, i) as u8,
                ),
                FitsColumn::Chars(v) => t == TFormType::Character && v@ == Seq::new(
                    vals@.len(),
                    |i: int| col_elem_val(data, gs, grl, grep, 1, i) as u8,
                ),
                FitsColumn::I16(v) => t == TFormType::I16 && v@ == Seq::new(
                    vals@.len(),
                    |i: int| col_elem_val(data, gs, grl, grep, 2, i) as u16 as i16,
                ),
                FitsColumn::I32(v) => t == TFormType::I32 && v@ == Seq::new(
                    vals@.len(),
                    |i: int| col_elem_val(data, gs, grl, grep, 4, i) as u32 as i32,
                ),
                FitsColumn::F32Bits(v) => t == TFormType::F32 && v@ == Seq::new(
                    vals@.len(),
                    |i: int| col_elem_val(data, gs, grl, grep, 4, i) as u32,
                ),
                FitsColumn::F64Bits(v) => t == TFormType::F64 && v@ == Seq::new(
                    vals@.len(),
                    |i: int| col_elem_val(data, gs, grl, grep, 8, i) as u64,
                ),
                FitsColumn::Logical(_) => false,
            },
            None => false,
        },
{
    let n = vals.len();
    proof {
        reveal_with_fuel(crate::bytesutil::pow256, 9);
    }
    match t {
        TFormType::UnsignedByte => {
            let mut out: Vec<u8> = Vec::new();
            let mut i: usize = 0;
            while i < n
                invariant
                    i <= n == vals@.len(),
                    vals@ == Seq::new(
                        vals@.len(),
                        |j: int| col_elem_val(data, gs, grl, grep, 1, j) as u64,
                    ),
                    forall|j: int|
                        0 <= j < n ==> #[trigger] col_elem_val(data, gs, grl, grep, 1, j) < 256,
                    out@ == Seq::new(
                        i as nat,
                        |j: int| col_elem_val(data, gs, grl, grep, 1, j) as u8,
                    ),
                decreases n - i,
            {
                out.push(vals[i] as u8);
                assert(out@ =~= Seq::new(
                    (i + 1) as nat,
                    |j: int| col_elem_val(data, gs, grl, grep, 1, j) as u8,
                ));
                i += 1;
            }
            Some(FitsColumn::Bytes(out))
        },
        TFormType::Character => {
            let mut out: Vec<u8> = Vec::new();
            let mut i: usize = 0;
            while i < n
                invariant
                    i <= n == vals@.len(),
                    vals@ == Seq::new(
                        vals@.len(),
                        |j: int| col_elem_val(data, gs, grl, grep, 1, j) as u64,
                    ),
                    forall|j: int|
                        0 <= j < n ==> #[trigger] col_elem_val(data, gs, grl, grep, 1, j) < 256,
                    out@ == Seq::new(
                        i as nat,
                        |j: int| col_elem_val(data, gs, grl, grep, 1, j) as u8,
                    ),
                decreases n - i,
            {
                out.push(vals[i] as u8);
                assert(out@ =~= Seq::new(
                    (i + 1) as nat,
                    |j: int| col_elem_val(data, gs, grl, grep, 1, j) as u8,
                ));
                i += 1;
            }
            Some(FitsColumn::Chars(out))
        },
        TFormType::I16 => {
            let mut out: Vec<i16> = Vec::new();
            let mut i: usize = 0;
            while i < n
                invariant
                    i <= n == vals@.len(),
                    vals@ == Seq::new(
                        vals@.len(),
                        |j: int| col_elem_val(data, gs, grl, grep, 2, j) as u64,
                    ),
                    forall|j: int|
                        0 <= j < n ==> #[trigger] col_elem_val(data, gs, grl, grep, 2, j)
                            < 65536,
                    out@ == Seq::new(
                        i as nat,
                        |j: int| col_elem_val(data, gs, grl, grep, 2, j) as u16 as i16,
                    ),
                decreases n - i,
            {
                out.push((vals[i] as u16) as i16);
                assert(out@ =~= Seq::new(
                    (i + 1) as nat,
                    |j: int| col_elem_val(data, gs, grl, grep, 2, j) as u16 as i16,
                ));
                i += 1;
            }
            Some(FitsColumn::I16(out))
        },
        TFormType::I32 => {
            let mut out: Vec<i32> = Vec::new();
            let mut i: usize = 0;
            while i < n
                invariant
                    i <= n == vals@.len(),
                    vals@ == Seq::new(
                        vals@.len(),
                        |j: int| col_elem_val(data, gs, grl, grep, 4, j) as u64,
                    ),
                    forall|j: int|
                        0 <= j < n ==> #[trigger] col_elem_val(data, gs, grl, grep, 4, j)
                            < 0x1_0000_0000,
                    out@ == Seq::new(
                        i as nat,
                        |j: int| col_elem_val(data, gs, grl, grep, 4, j) as u32 as i32,
                    ),
                decreases n - i,
            {
                out.push((vals[i] as u32) as i32);
                assert(out@ =~= Seq::new(
                    (i + 1) as nat,
                    |j: int| col_elem_val(data, gs, grl, grep, 4, j) as u32 as i32,
                ));
                i += 1;
            }
            Some(FitsColumn::I32(out))
        },
        TFormType::F32 => {
            let mut out: Vec<u32> = Vec::new();
            let mut i: usize = 0;
            while i < n
                invariant
                    i <= n == vals@.len(),
                    vals@ == Seq::new(
                        vals@.len(),
                        |j: int| col_elem_val(data, gs, grl, grep, 4, j) as u64,
                    ),
                    forall|j: int|
                        0 <= j < n ==> #[trigger] col_elem_val(data, gs, grl, grep, 4, j)
                            < 0x1_0000_0000,
                    out@ == Seq::new(
                        i as nat,
                        |j: int| col_elem_val(data, gs, grl, grep, 4, j) as u32,
                    ),
                decreases n - i,
            {
                out.push(vals[i] as u32);
                assert(out@ =~= Seq::new(
                    (i + 1) as nat,
                    |j: int| col_elem_val(data, gs, grl, grep, 4, j) as u32,
                ));
                i += 1;
            }
            Some(FitsColumn::F32Bits(out))
        },
        _ => {
            let mut out: Vec<u64> = Vec::new();
            let mut i: usize = 0;
            while i < n
                invariant
                    t == TFormType::F64,
                    i <= n == vals@.len(),
                    vals@ == Seq::new(
                        vals@.len(),
                        |j: int| col_elem_val(data, gs, grl, grep, 8, j) as u64,
                    ),
                    out@ == Seq::new(
                        i as nat,
                        |j: int| col_elem_val(data, gs, grl, grep, 8, j) as u64,
                    ),
                decreases n - i,
            {
                out.push(vals[i]);
                assert(out@ =~= Seq::new(
                    (i + 1) as nat,
                    |j: int| col_elem_val(data, gs, grl, grep, 8, j) as u64,
                ));
                i += 1;
            }
            Some(FitsColumn::F64Bits(out))
        },
    }
}

} // verus!
