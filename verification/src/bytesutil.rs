//! Byte-level helpers shared by the card and value codecs: ASCII space
//! trimming, decimal integer parsing and rendering, and block padding
//! arithmetic.

use vstd::prelude::*;

verus! {

/// ASCII space.
pub const SPACE: u8 = 32;

/// ASCII '='.
pub const EQUALS: u8 = 61;

/// ASCII '/'.
pub const SLASH: u8 = 47;

/// ASCII single quote.
pub const QUOTE: u8 = 39;

/// ASCII '0'.
pub const DIGIT_ZERO: u8 = 48;

/// ASCII '+'.
pub const PLUS: u8 = 43;

/// ASCII '-'.
pub const MINUS: u8 = 45;

/// Bytes per header card.
pub const HEADER_CARD_LEN: usize = 80;

/// Bytes per keyword.
pub const HEADER_KEYWORD_LEN: usize = 8;

/// Bytes per FITS record (block).
pub const FITS_RECORD_LEN: usize = 2880;

pub open spec fn is_digit(b: u8) -> bool {
    48 <= b <= 57
}

/// The given sequence with leading spaces removed.
pub open spec fn drop_leading_spaces(s: Seq<u8>) -> Seq<u8>
    decreases s.len(),
{
    if s.len() == 0 {
        s
    } else if s[0] == SPACE {
        drop_leading_spaces(s.skip(1))
    } else {
        s
    }
}

/// The given sequence with trailing spaces removed.
pub open spec fn drop_trailing_spaces(s: Seq<u8>) -> Seq<u8>
    decreases s.len(),
{
    if s.len() == 0 {
        s
    } else if s[s.len() - 1] == SPACE {
        drop_trailing_spaces(s.drop_last())
    } else {
        s
    }
}

/// The given sequence with both leading and trailing spaces removed.
pub open spec fn trim_spaces(s: Seq<u8>) -> Seq<u8> {
    drop_trailing_spaces(drop_leading_spaces(s))
}

/// Numeric value of a digit string, most significant digit first.
pub open spec fn dec_val(s: Seq<u8>) -> int
    decreases s.len(),
{
    if s.len() == 0 {
        0
    } else {
        dec_val(s.drop_last()) * 10 + (s.last() - DIGIT_ZERO)
    }
}

pub open spec fn all_digits(s: Seq<u8>) -> bool {
    forall|i: int| 0 <= i < s.len() ==> is_digit(#[trigger] s[i])
}

/// What `str::parse` accepts for an unsigned integer type with maximum
/// value `max`: an optional leading '+', then one or more digits, with
/// the value in range.
pub open spec fn spec_parse_uint(s: Seq<u8>, max: nat) -> Option<int> {
    let t = if s.len() > 0 && s[0] == PLUS {
        s.skip(1)
    } else {
        s
    };
    if t.len() > 0 && all_digits(t) && dec_val(t) <= max {
        Some(dec_val(t))
    } else {
        None
    }
}

/// Shortest decimal rendering of `n`, most significant digit first.
pub open spec fn dec_repr(n: nat) -> Seq<u8>
    decreases n,
{
    if n < 10 {
        seq![(DIGIT_ZERO + n) as u8]
    } else {
        dec_repr(n / 10).push((DIGIT_ZERO + n % 10) as u8)
    }
}

pub open spec fn pow10(k: nat) -> nat
    decreases k,
{
    if k == 0 {
        1
    } else {
        10 * pow10((k - 1) as nat)
    }
}

pub proof fn lemma_dec_repr_len(n: nat, k: nat)
    requires
        k >= 1,
        n < pow10(k),
    ensures
        1 <= dec_repr(n).len() <= k,
    decreases k,
{
    if n >= 10 {
        assert(pow10(1) == 10) by {
            reveal_with_fuel(pow10, 2);
        }
        if k == 1 {
            assert(n < 10);
        }
        assert(n / 10 < pow10((k - 1) as nat)) by {
            assert(n < 10 * pow10((k - 1) as nat));
        }
        lemma_dec_repr_len(n / 10, (k - 1) as nat);
    }
}

/// A `u32` has at most 10 decimal digits.
pub proof fn lemma_dec_repr_len_u32(n: nat)
    requires
        n <= 0xFFFF_FFFF,
    ensures
        1 <= dec_repr(n).len() <= 10,
{
    assert(pow10(10) == 10_000_000_000) by {
        reveal_with_fuel(pow10, 11);
    }
    lemma_dec_repr_len(n, 10);
}

/// A number below 1000 has at most 3 decimal digits.
pub proof fn lemma_dec_repr_len_small(n: nat)
    requires
        n < 1000,
    ensures
        1 <= dec_repr(n).len() <= 3,
{
    assert(pow10(3) == 1000) by {
        reveal_with_fuel(pow10, 4);
    }
    lemma_dec_repr_len(n, 3);
}

/// Decimal rendering consists of digits and parses back to the same value.
pub proof fn lemma_dec_repr_val(n: nat)
    ensures
        all_digits(dec_repr(n)),
        dec_val(dec_repr(n)) == n,
    decreases n,
{
    if n < 10 {
        let s0 = seq![(DIGIT_ZERO + n) as u8];
        assert(dec_repr(n) == s0);
        assert(s0.drop_last() =~= Seq::<u8>::empty());
        assert(s0.last() == (DIGIT_ZERO + n) as u8);
        assert((DIGIT_ZERO + n) as u8 == 48 + n);
        assert(dec_val(s0) == dec_val(s0.drop_last()) * 10 + (s0.last() - DIGIT_ZERO));
        assert(dec_val(s0) == n);
        assert(is_digit(s0[0]));
    } else {
        lemma_dec_repr_val(n / 10);
        let d = dec_repr(n / 10);
        let w = d.push((DIGIT_ZERO + n % 10) as u8);
        assert(w.drop_last() =~= d);
        assert(forall|i: int| 0 <= i < w.len() - 1 ==> w[i] == d[i]);
        assert(forall|i: int| 0 <= i < w.len() ==> is_digit(#[trigger] w[i]));
        assert(dec_val(w) == dec_val(d) * 10 + (w.last() - DIGIT_ZERO));
    }
}

/// `n` spaces.
pub open spec fn spaces(n: nat) -> Seq<u8> {
    Seq::new(n, |i: int| SPACE)
}

/// `n` zero bytes.
pub open spec fn zeros(n: nat) -> Seq<u8> {
    Seq::new(n, |i: int| 0u8)
}

/// `n` rounded up to the next multiple of 2880.
pub open spec fn round_record(n: nat) -> nat {
    if n % 2880 == 0 {
        n
    } else {
        (n / 2880 + 1) * 2880
    }
}

/// First index at which `b` occurs in `s`, if any.
pub open spec fn find_byte(s: Seq<u8>, b: u8) -> Option<int>
    decreases s.len(),
{
    if s.len() == 0 {
        None
    } else if s[0] == b {
        Some(0)
    } else {
        match find_byte(s.skip(1), b) {
            Some(i) => Some(i + 1),
            None => None,
        }
    }
}

/// Index just past the last non-space byte; 0 when all bytes are spaces.
pub open spec fn content_len(s: Seq<u8>) -> nat {
    drop_trailing_spaces(s).len()
}

pub proof fn lemma_drop_leading_spaces_prefix(s: Seq<u8>, i: int)
    requires
        0 <= i <= s.len(),
        forall|j: int| 0 <= j < i ==> s[j] == SPACE,
    ensures
        drop_leading_spaces(s) == drop_leading_spaces(s.skip(i)),
    decreases i,
{
    if i > 0 {
        assert(s[0] == SPACE);
        assert(s.len() > 0);
        lemma_drop_leading_spaces_prefix(s.skip(1), i - 1);
        assert(s.skip(1).skip(i - 1) =~= s.skip(i));
    } else {
        assert(s.skip(0) =~= s);
    }
}

pub proof fn lemma_drop_leading_spaces_nonspace(s: Seq<u8>, i: int)
    requires
        0 <= i < s.len(),
        forall|j: int| 0 <= j < i ==> s[j] == SPACE,
        s[i] != SPACE,
    ensures
        drop_leading_spaces(s) == s.skip(i),
    decreases i,
{
    lemma_drop_leading_spaces_prefix(s, i);
    assert(s.skip(i)[0] != SPACE);
}

pub proof fn lemma_drop_trailing_spaces_suffix(s: Seq<u8>, i: int)
    requires
        0 <= i <= s.len(),
        forall|j: int| i <= j < s.len() ==> s[j] == SPACE,
    ensures
        drop_trailing_spaces(s) == drop_trailing_spaces(s.take(i)),
    decreases s.len() - i,
{
    if i < s.len() {
        assert(s[s.len() - 1] == SPACE);
        lemma_drop_trailing_spaces_suffix(s.drop_last(), i);
        assert(s.drop_last().take(i) =~= s.take(i));
    } else {
        assert(s.take(i) =~= s);
    }
}

pub proof fn lemma_drop_trailing_spaces_nonspace(s: Seq<u8>, i: int)
    requires
        0 <= i < s.len(),
        forall|j: int| i < j < s.len() ==> s[j] == SPACE,
        s[i] != SPACE,
    ensures
        drop_trailing_spaces(s) == s.take(i + 1),
    decreases s.len(),
{
    lemma_drop_trailing_spaces_suffix(s, i + 1);
    let t = s.take(i + 1);
    assert(t[t.len() - 1] != SPACE);
}

/// Removing trailing spaces leaves a prefix of the sequence.
pub proof fn lemma_drop_trailing_spaces_is_prefix(s: Seq<u8>)
    ensures
        drop_trailing_spaces(s).len() <= s.len(),
        drop_trailing_spaces(s) == s.take(drop_trailing_spaces(s).len() as int),
    decreases s.len(),
{
    if s.len() > 0 && s[s.len() - 1] == SPACE {
        lemma_drop_trailing_spaces_is_prefix(s.drop_last());
        let k = drop_trailing_spaces(s).len() as int;
        assert(s.drop_last().take(k) =~= s.take(k));
    } else {
        assert(s.take(s.len() as int) =~= s);
    }
}

/// Trimming never lengthens a sequence.
pub proof fn lemma_trim_le(s: Seq<u8>)
    ensures
        drop_leading_spaces(s).len() <= s.len(),
        drop_trailing_spaces(s).len() <= s.len(),
        trim_spaces(s).len() <= s.len(),
    decreases s.len(),
{
    lemma_drop_trailing_spaces_is_prefix(s);
    if s.len() > 0 && s[0] == SPACE {
        lemma_trim_le(s.skip(1));
    }
    lemma_drop_trailing_spaces_is_prefix(drop_leading_spaces(s));
}

/// Trimming keeps every byte below 128 if they all were.
pub proof fn lemma_trim_preserves_ascii(s: Seq<u8>)
    requires
        all_ascii(s),
    ensures
        all_ascii(trim_spaces(s)),
        all_ascii(drop_leading_spaces(s)),
        all_ascii(drop_trailing_spaces(s)),
    decreases s.len(),
{
    if s.len() > 0 && s[0] == SPACE {
        assert(forall|j: int| 0 <= j < s.skip(1).len() ==> #[trigger] s.skip(1)[j] < 128);
        lemma_trim_preserves_ascii(s.skip(1));
    }
    let dl = drop_leading_spaces(s);
    lemma_drop_trailing_spaces_is_prefix(s);
    lemma_drop_trailing_spaces_is_prefix(dl);
    assert(forall|j: int|
        0 <= j < drop_trailing_spaces(s).len() ==> #[trigger] drop_trailing_spaces(s)[j]
            == s[j]);
    assert(forall|j: int|
        0 <= j < drop_trailing_spaces(dl).len() ==> #[trigger] drop_trailing_spaces(dl)[j]
            == dl[j]);
}

pub proof fn lemma_all_spaces_trim_empty(s: Seq<u8>)
    requires
        forall|j: int| 0 <= j < s.len() ==> s[j] == SPACE,
    ensures
        drop_trailing_spaces(s) == Seq::<u8>::empty(),
        drop_leading_spaces(s) == Seq::<u8>::empty(),
    decreases s.len(),
{
    if s.len() > 0 {
        lemma_all_spaces_trim_empty(s.drop_last());
        lemma_all_spaces_trim_empty(s.skip(1));
    } else {
        assert(s =~= Seq::<u8>::empty());
    }
}

/// Copies `src[from..to]` into a fresh vector.
pub fn copy_range(src: &Vec<u8>, from: usize, to: usize) -> (r: Vec<u8>)
    requires
        from <= to <= src@.len(),
    ensures
        r@ == src@.subrange(from as int, to as int),
{
    let mut r: Vec<u8> = Vec::new();
    let mut i: usize = from;
    while i < to
        invariant
            from <= i <= to <= src@.len(),
            r@ == src@.subrange(from as int, i as int),
        decreases to - i,
    {
        r.push(src[i]);
        assert(r@ =~= src@.subrange(from as int, i + 1 as int));
        i += 1;
    }
    r
}

/// Removes trailing spaces only.
pub fn trim_trailing(value: &Vec<u8>) -> (r: Vec<u8>)
    ensures
        r@ == drop_trailing_spaces(value@),
{
    let n = value.len();
    let mut i2: usize = n;
    while i2 > 0 && value[i2 - 1] == SPACE
        invariant
            i2 <= n == value@.len(),
            forall|j: int| i2 <= j < n ==> value@[j] == SPACE,
        decreases i2,
    {
        i2 -= 1;
    }
    proof {
        if i2 == 0 {
            lemma_all_spaces_trim_empty(value@);
        } else {
            lemma_drop_trailing_spaces_nonspace(value@, i2 - 1);
        }
        assert(value@.subrange(0, i2 as int) =~= value@.take(i2 as int));
    }
    copy_range(value, 0, i2)
}

/// True when every byte is below 128.
pub open spec fn all_ascii(bs: Seq<u8>) -> bool {
    forall|i: int| 0 <= i < bs.len() ==> #[trigger] bs[i] < 128
}

/// True when every byte is below 128.
pub fn check_all_ascii(v: &Vec<u8>) -> (r: bool)
    ensures
        r == all_ascii(v@),
{
    let mut i: usize = 0;
    let n = v.len();
    while i < n
        invariant
            i <= n == v@.len(),
            forall|j: int| 0 <= j < i ==> #[trigger] v@[j] < 128,
        decreases n - i,
    {
        if v[i] >= 128 {
            return false;
        }
        i += 1;
    }
    true
}

/// Removes leading and trailing spaces.
pub fn trim_value(value: &Vec<u8>) -> (r: Vec<u8>)
    ensures
        r@ == trim_spaces(value@),
{
    let n = value.len();
    let mut i1: usize = 0;
    while i1 < n && value[i1] == SPACE
        invariant
            0 <= i1 <= n == value@.len(),
            forall|j: int| 0 <= j < i1 ==> value@[j] == SPACE,
        decreases n - i1,
    {
        i1 += 1;
    }
    if i1 == n {
        proof {
            lemma_all_spaces_trim_empty(value@);
            lemma_all_spaces_trim_empty(drop_leading_spaces(value@));
        }
        return Vec::new();
    }
    let mut i2: usize = n;
    while i2 > i1 && value[i2 - 1] == SPACE
        invariant
            i1 <= i2 <= n == value@.len(),
            forall|j: int| i2 <= j < n ==> value@[j] == SPACE,
        decreases i2,
    {
        i2 -= 1;
    }
    proof {
        lemma_drop_leading_spaces_nonspace(value@, i1 as int);
        assert(value@[i2 - 1] != SPACE);
        lemma_drop_trailing_spaces_nonspace(
            value@.skip(i1 as int),
            i2 - 1 - i1,
        );
        assert(value@.skip(i1 as int).take(i2 - i1) =~= value@.subrange(
            i1 as int,
            i2 as int,
        ));
    }
    copy_range(value, i1, i2)
}

proof fn lemma_dec_val_nonneg(s: Seq<u8>)
    requires
        all_digits(s),
    ensures
        dec_val(s) >= 0,
    decreases s.len(),
{
    if s.len() > 0 {
        assert(forall|j: int|
            0 <= j < s.drop_last().len() ==> is_digit(#[trigger] s.drop_last()[j]));
        lemma_dec_val_nonneg(s.drop_last());
        assert(is_digit(s.last()));
    }
}

/// A digit string's value is at least the value of any of its prefixes.
proof fn lemma_dec_val_grows(s: Seq<u8>, i: int)
    requires
        0 <= i <= s.len(),
        all_digits(s),
    ensures
        dec_val(s) >= dec_val(s.take(i)),
    decreases s.len() - i,
{
    if i < s.len() {
        lemma_dec_val_grows(s, i + 1);
        assert(s.take(i + 1).drop_last() =~= s.take(i));
        assert(dec_val(s.take(i + 1)) == dec_val(s.take(i)) * 10 + (s.take(i + 1).last()
            - DIGIT_ZERO));
        assert(forall|j: int| 0 <= j < s.take(i).len() ==> is_digit(#[trigger] s.take(i)[j]));
        lemma_dec_val_nonneg(s.take(i));
        assert(is_digit(s[i]));
    } else {
        assert(s.take(i) =~= s);
    }
}

/// Parses the digit part of an unsigned decimal integer, bounded by `max`.
fn parse_digits(s: &Vec<u8>, start: usize, max: u64) -> (r: Option<u64>)
    requires
        start <= s@.len(),
        max <= 0xFFFF_FFFF,
    ensures
        ({
            let t = s@.skip(start as int);
            match r {
                Some(v) => t.len() > 0 && all_digits(t) && dec_val(t) == v as int && v <= max,
                None => !(t.len() > 0 && all_digits(t) && dec_val(t) <= max),
            }
        }),
{
    let ghost t = s@.skip(start as int);
    let n = s.len();
    if start == n {
        return None;
    }
    let mut acc: u64 = 0;
    let mut over: bool = false;
    let mut i: usize = start;
    while i < n
        invariant
            start <= i <= n == s@.len(),
            t == s@.skip(start as int),
            max <= 0xFFFF_FFFF,
            forall|j: int| 0 <= j < i - start ==> is_digit(#[trigger] t[j]),
            !over ==> acc == dec_val(t.take(i - start)) && acc <= max,
            over ==> dec_val(t.take(i - start)) > max,
        decreases n - i,
    {
        let b = s[i];
        assert(t[i - start] == b);
        if b < DIGIT_ZERO || b > 57 {
            assert(!all_digits(t));
            return None;
        }
        let d = (b - DIGIT_ZERO) as u64;
        proof {
            assert(t.take(i - start + 1).drop_last() =~= t.take(i - start));
            assert(dec_val(t.take(i - start + 1)) == dec_val(t.take(i - start)) * 10 + (t.take(
                i - start + 1,
            ).last() - DIGIT_ZERO));
        }
        if !over {
            let val = acc * 10 + d;
            if val > max {
                over = true;
            } else {
                acc = val;
            }
        } else {
            proof {
                assert(dec_val(t.take(i - start + 1)) >= dec_val(t.take(i - start)) * 10);
            }
        }
        i += 1;
    }
    assert(t.take(n - start as int) =~= t);
    if over {
        proof {
            lemma_dec_val_grows(t, t.len() as int);
        }
        None
    } else {
        Some(acc)
    }
}

/// Parses what `str::parse` accepts for an unsigned integer bounded by
/// `max`: optional '+', then digits, value in range.
pub fn parse_uint(s: &Vec<u8>, max: u64) -> (r: Option<u64>)
    requires
        max <= 0xFFFF_FFFF,
    ensures
        match r {
            Some(v) => spec_parse_uint(s@, max as nat) == Some(v as int),
            None => spec_parse_uint(s@, max as nat) is None,
        },
{
    let start: usize = if s.len() > 0 && s[0] == PLUS {
        1
    } else {
        0
    };
    proof {
        if !(s@.len() > 0 && s@[0] == PLUS) {
            assert(s@.skip(0) =~= s@);
        }
    }
    parse_digits(s, start, max)
}

/// Appends the decimal rendering of `n` to `out`.
pub fn push_decimal(out: &mut Vec<u8>, n: u64)
    ensures
        final(out)@ == old(out)@ + dec_repr(n as nat),
    decreases n,
{
    if n < 10 {
        out.push(DIGIT_ZERO + n as u8);
        assert(final(out)@ =~= old(out)@ + dec_repr(n as nat));
    } else {
        push_decimal(out, n / 10);
        out.push(DIGIT_ZERO + (n % 10) as u8);
        assert(final(out)@ =~= old(out)@ + dec_repr(n as nat));
    }
}

/// Appends `count` copies of `b` to `out`.
pub fn push_repeat(out: &mut Vec<u8>, b: u8, count: usize)
    ensures
        final(out)@ == old(out)@ + Seq::new(count as nat, |i: int| b),
{
    let mut i: usize = 0;
    while i < count
        invariant
            i <= count,
            out@ == old(out)@ + Seq::new(i as nat, |j: int| b),
        decreases count - i,
    {
        out.push(b);
        assert(out@ =~= old(out)@ + Seq::new((i + 1) as nat, |j: int| b));
        i += 1;
    }
}

/// Appends all of `src` to `out`.
pub fn push_all(out: &mut Vec<u8>, src: &Vec<u8>)
    ensures
        final(out)@ == old(out)@ + src@,
{
    let mut i: usize = 0;
    while i < src.len()
        invariant
            i <= src@.len(),
            out@ == old(out)@ + src@.take(i as int),
        decreases src@.len() - i,
    {
        out.push(src[i]);
        assert(out@ =~= old(out)@ + src@.take(i + 1 as int));
        i += 1;
    }
    assert(src@.take(src@.len() as int) =~= src@);
}

/// First index of `b` in `s`, by linear scan.
pub fn find_byte_at(s: &Vec<u8>, b: u8) -> (r: Option<usize>)
    ensures
        match r {
            Some(i) => find_byte(s@, b) == Some(i as int) && i < s@.len() && s@[i as int] == b,
            None => find_byte(s@, b) is None,
        },
{
    let mut i: usize = 0;
    let n = s.len();
    while i < n
        invariant
            i <= n == s@.len(),
            forall|j: int| 0 <= j < i ==> s@[j] != b,
        decreases n - i,
    {
        if s[i] == b {
            proof {
                lemma_find_byte_at(s@, b, i as int);
            }
            return Some(i);
        }
        i += 1;
    }
    proof {
        lemma_find_byte_none(s@, b);
    }
    None
}

proof fn lemma_find_byte_at(s: Seq<u8>, b: u8, i: int)
    requires
        0 <= i < s.len(),
        s[i] == b,
        forall|j: int| 0 <= j < i ==> s[j] != b,
    ensures
        find_byte(s, b) == Some(i),
    decreases i,
{
    if i > 0 {
        lemma_find_byte_at(s.skip(1), b, i - 1);
    }
}

proof fn lemma_find_byte_none(s: Seq<u8>, b: u8)
    requires
        forall|j: int| 0 <= j < s.len() ==> s[j] != b,
    ensures
        find_byte(s, b) is None,
    decreases s.len(),
{
    if s.len() > 0 {
        lemma_find_byte_none(s.skip(1), b);
    }
}


/// Value of a big-endian byte run, most significant byte first.
pub open spec fn be_val(s: Seq<u8>) -> nat
    decreases s.len(),
{
    if s.len() == 0 {
        0
    } else {
        be_val(s.drop_last()) * 256 + s.last() as nat
    }
}

/// The `k` big-endian bytes of `v`.
pub open spec fn be_bytes(v: nat, k: nat) -> Seq<u8>
    decreases k,
{
    if k == 0 {
        Seq::<u8>::empty()
    } else {
        be_bytes(v / 256, (k - 1) as nat).push((v % 256) as u8)
    }
}

pub open spec fn pow256(k: nat) -> nat
    decreases k,
{
    if k == 0 {
        1
    } else {
        256 * pow256((k - 1) as nat)
    }
}

pub proof fn lemma_be_val_bound(s: Seq<u8>)
    ensures
        be_val(s) < pow256(s.len()),
    decreases s.len(),
{
    if s.len() > 0 {
        lemma_be_val_bound(s.drop_last());
        assert(be_val(s.drop_last()) * 256 + 256 <= pow256((s.len() - 1) as nat) * 256)
            by (nonlinear_arith)
            requires
                be_val(s.drop_last()) + 1 <= pow256((s.len() - 1) as nat),
        ;
        assert(pow256((s.len() - 1) as nat) * 256 == pow256(s.len())) by (nonlinear_arith)
            requires
                pow256(s.len()) == 256 * pow256((s.len() - 1) as nat),
        ;
    }
}

/// Round trip: the big-endian bytes of `v` read back as `v`.
pub proof fn lemma_be_bytes_val(v: nat, k: nat)
    requires
        v < pow256(k),
    ensures
        be_bytes(v, k).len() == k,
        be_val(be_bytes(v, k)) == v,
    decreases k,
{
    if k == 0 {
    } else {
        assert(v / 256 < pow256((k - 1) as nat)) by (nonlinear_arith)
            requires
                v < 256 * pow256((k - 1) as nat),
        ;
        lemma_be_bytes_val(v / 256, (k - 1) as nat);
        let b = be_bytes(v, k);
        assert(b.drop_last() =~= be_bytes(v / 256, (k - 1) as nat));
        assert(be_val(b) == (v / 256) * 256 + v % 256);
        vstd::arithmetic::div_mod::lemma_fundamental_div_mod(v as int, 256);
    }
}

/// Reads `k` big-endian bytes at offset `at`.
pub proof fn lemma_pow256_le(i: nat, j: nat)
    requires
        i <= j,
    ensures
        pow256(i) <= pow256(j),
    decreases j,
{
    if i < j {
        lemma_pow256_le(i, (j - 1) as nat);
    }
}

/// Reads `k` big-endian bytes at offset `at`.
pub fn read_be(raw: &Vec<u8>, at: usize, k: usize) -> (r: u64)
    requires
        k <= 8,
        at + k <= raw@.len(),
    ensures
        r == be_val(raw@.subrange(at as int, (at + k) as int)),
{
    let n = raw.len();
    let mut acc: u64 = 0;
    let mut i: usize = 0;
    proof {
        assert(raw@.subrange(at as int, at as int) =~= Seq::<u8>::empty());
        reveal_with_fuel(pow256, 9);
    }
    while i < k
        invariant
            i <= k <= 8,
            at + k <= n == raw@.len(),
            acc == be_val(raw@.subrange(at as int, (at + i) as int)),
            acc < pow256(i as nat),
        decreases k - i,
    {
        proof {
            reveal_with_fuel(pow256, 9);
            lemma_pow256_le(i as nat, 7);
            assert(acc < 0x100_0000_0000_0000);
            let s = raw@.subrange(at as int, (at + i + 1) as int);
            assert(s.drop_last() =~= raw@.subrange(at as int, (at + i) as int));
            assert(s.last() == raw@[at + i]);
        }
        acc = acc * 256 + raw[at + i] as u64;
        i += 1;
    }
    acc
}

/// Appends the `k` big-endian bytes of `v`.
pub fn push_be(out: &mut Vec<u8>, v: u64, k: usize)
    requires
        k <= 8,
    ensures
        final(out)@ == old(out)@ + be_bytes(v as nat, k as nat),
    decreases k,
{
    if k == 0 {
        assert(final(out)@ =~= old(out)@ + be_bytes(v as nat, 0));
    } else {
        push_be(out, v / 256, k - 1);
        out.push((v % 256) as u8);
        assert(final(out)@ =~= old(out)@ + be_bytes(v as nat, k as nat));
    }
}


/// Compares 8 bytes of `v` at `at` against a fixed 8-byte keyword.
pub fn range_matches(v: &Vec<u8>, at: usize, arr: &[u8; 8]) -> (r: bool)
    requires
        at + 8 <= v@.len(),
    ensures
        r == (v@.subrange(at as int, at + 8) == arr@),
{
    let n = v.len();
    let mut j: usize = 0;
    while j < 8
        invariant
            j <= 8,
            at + 8 <= n == v@.len(),
            forall|t: int| 0 <= t < j ==> v@[at + t] == arr@[t],
        decreases 8 - j,
    {
        if v[at + j] != arr[j] {
            assert(v@.subrange(at as int, at + 8)[j as int] != arr@[j as int]);
            return false;
        }
        j += 1;
    }
    assert(v@.subrange(at as int, at + 8) =~= arr@);
    true
}

} // verus!
