//! Shared pieces of the standard HDU builders and of the binary table
//! column lookup.

use vstd::prelude::*;

use crate::bytesutil::{push_repeat, EQUALS, QUOTE, SPACE};
use crate::container::{spec_string_value, spec_tform_value, FitsHeaderValueContainer};
use crate::error::FitsHeaderError;
use crate::hdu::{spec_u32_of, Hdu};
use crate::header::{find_card, FitsHeader, FitsHeaderCard};
use crate::keyword::{
    append_number_spec, naxis_keyword, spec_naxis_keyword, spec_tform_keyword,
    spec_ttype_keyword, stem_len, FitsHeaderKeyword,
};
use crate::tform::{
    col_in_bounds, column_decode_ok, column_unsupported, spec_type_width, FitsColumn, TForm,
    TFormType,
};
use crate::value::{ascii_u8s, FitsHeaderValue};

verus! {

/// Builds a card holding the given value, canonical and without a
/// comment.
pub(crate) fn value_card<T: FitsHeaderValue>(kw: [u8; 8], value: T) -> (r: FitsHeaderCard)
    requires
        value.encodable(),
    ensures
        r.wf(),
        r.spec_keyword() == kw@,
        crate::header::placed_card::<T>(r, kw@, value, None::<Seq<char>>),
{
    let keyword = FitsHeaderKeyword::from_raw(kw);
    match FitsHeaderValueContainer::new(value, None) {
        Ok(c) => FitsHeaderCard::from_parts(keyword, c),
        Err(_) => {
            proof {
                assert(false);
            }
            let mut filler: Vec<u8> = Vec::new();
            push_repeat(&mut filler, SPACE, 72);
            FitsHeaderCard::from_parts(keyword, FitsHeaderValueContainer::from_raw(filler))
        },
    }
}

/// The state of a freshly built terminator card: the terminator
/// keyword over an undecoded all-space region.
pub open spec fn end_card_state(card: FitsHeaderCard) -> bool {
    &&& card.spec_keyword() == crate::keyword::spec_end_keyword()
    &&& card.spec_container().spec_value() is None
    &&& card.spec_container().spec_comment() is None
    &&& card.spec_container().spec_raw() == crate::bytesutil::spaces(72)
}

/// The state of a freshly built extension-type card: the keyword over
/// an undecoded region holding the quoted text.
pub open spec fn quoted_card_state(card: FitsHeaderCard, kw: Seq<u8>, text: Seq<u8>) -> bool {
    &&& card.spec_keyword() == kw
    &&& card.spec_container().spec_value() is None
    &&& card.spec_container().spec_comment() is None
    &&& card.spec_container().spec_raw() == seq![EQUALS, SPACE, QUOTE] + text + seq![QUOTE]
        + crate::bytesutil::spaces(60)
}

/// Builds the terminator card.
pub(crate) fn end_card() -> (r: FitsHeaderCard)
    ensures
        r.wf(),
        end_card_state(r),
{
    let keyword = FitsHeaderKeyword::from_raw(crate::keyword::end_keyword());
    let mut filler: Vec<u8> = Vec::new();
    push_repeat(&mut filler, SPACE, 72);
    proof {
        assert(filler@ =~= crate::bytesutil::spaces(72));
    }
    FitsHeaderCard::from_parts(keyword, FitsHeaderValueContainer::from_raw(filler))
}

/// Builds a raw card whose value region holds the given text in
/// single quotes, as extension-type cards carry it.
pub(crate) fn quoted_raw_card(kw: [u8; 8], text: &[u8; 8]) -> (r: FitsHeaderCard)
    ensures
        r.wf(),
        quoted_card_state(r, kw@, text@),
{
    let keyword = FitsHeaderKeyword::from_raw(kw);
    let mut region: Vec<u8> = Vec::new();
    region.push(EQUALS);
    region.push(SPACE);
    region.push(QUOTE);
    let mut i: usize = 0;
    while i < 8
        invariant
            i <= 8,
            region@ == seq![EQUALS, SPACE, QUOTE] + text@.take(i as int),
        decreases 8 - i,
    {
        region.push(text[i]);
        assert(region@ =~= seq![EQUALS, SPACE, QUOTE] + text@.take(i + 1));
        i += 1;
    }
    proof {
        assert(text@.take(8) =~= text@);
    }
    region.push(QUOTE);
    push_repeat(&mut region, SPACE, 60);
    proof {
        assert(region@ =~= seq![EQUALS, SPACE, QUOTE] + text@ + seq![QUOTE]
            + crate::bytesutil::spaces(60));
    }
    FitsHeaderCard::from_parts(keyword, FitsHeaderValueContainer::from_raw(region))
}

/// The keyword of the parameter-count card: `PCOUNT`.
pub open spec fn spec_pcount_keyword() -> Seq<u8> {
    seq![80u8, 67, 79, 85, 78, 84, 32, 32]
}

pub(crate) fn pcount_keyword() -> (r: [u8; 8])
    ensures
        r@ == spec_pcount_keyword(),
{
    [80u8, 67, 79, 85, 78, 84, 32, 32]
}

/// The keyword of the group-count card: `GCOUNT`.
pub open spec fn spec_gcount_keyword() -> Seq<u8> {
    seq![71u8, 67, 79, 85, 78, 84, 32, 32]
}

pub(crate) fn gcount_keyword() -> (r: [u8; 8])
    ensures
        r@ == spec_gcount_keyword(),
{
    [71u8, 67, 79, 85, 78, 84, 32, 32]
}

/// The keyword of the field-count card: `TFIELDS`.
pub open spec fn spec_tfields_keyword() -> Seq<u8> {
    seq![84u8, 70, 73, 69, 76, 68, 83, 32]
}

pub(crate) fn tfields_keyword() -> (r: [u8; 8])
    ensures
        r@ == spec_tfields_keyword(),
{
    [84u8, 70, 73, 69, 76, 68, 83, 32]
}

/// Builds the common tail of a table HDU after its extension-type card.
pub(crate) fn table_tail(xtension_card: FitsHeaderCard) -> (r: Hdu)
    requires
        xtension_card.wf(),
    ensures
        r.wf(),
        r.spec_data().len() == 0,
        r.spec_header().cards@.len() == 9,
        r.spec_header().cards@[0] == xtension_card,
        crate::header::placed_card::<crate::bitpix::Bitpix>(
            r.spec_header().cards@[1],
            crate::keyword::spec_bitpix_keyword(),
            crate::bitpix::Bitpix::U8,
            None::<Seq<char>>,
        ),
        crate::header::placed_card::<u16>(
            r.spec_header().cards@[2],
            crate::keyword::spec_naxis_keyword(),
            2u16,
            None::<Seq<char>>,
        ),
        crate::header::placed_card::<u32>(
            r.spec_header().cards@[3],
            crate::keyword::append_number_spec(crate::keyword::spec_naxis_keyword(), 1),
            0u32,
            None::<Seq<char>>,
        ),
        crate::header::placed_card::<u32>(
            r.spec_header().cards@[4],
            crate::keyword::append_number_spec(crate::keyword::spec_naxis_keyword(), 2),
            0u32,
            None::<Seq<char>>,
        ),
        crate::header::placed_card::<u16>(
            r.spec_header().cards@[5],
            spec_pcount_keyword(),
            0u16,
            None::<Seq<char>>,
        ),
        crate::header::placed_card::<u16>(
            r.spec_header().cards@[6],
            spec_gcount_keyword(),
            1u16,
            None::<Seq<char>>,
        ),
        crate::header::placed_card::<u16>(
            r.spec_header().cards@[7],
            spec_tfields_keyword(),
            0u16,
            None::<Seq<char>>,
        ),
        end_card_state(r.spec_header().cards@[8]),
{
    let bitpix_card = value_card(crate::keyword::bitpix_keyword(), crate::bitpix::Bitpix::U8);
    let naxis_card = value_card(crate::keyword::naxis_keyword(), 2u16);
    let mut nk1 = FitsHeaderKeyword::from_raw(naxis_keyword());
    proof {
        lemma_keyword_stem_five(spec_naxis_keyword());
        crate::bytesutil::lemma_dec_repr_len_small(1);
        crate::bytesutil::lemma_dec_repr_len_small(2);
    }
    nk1.append_number(1);
    let naxis1_card = value_card(nk1.as_raw(), 0u32);
    let mut nk2 = FitsHeaderKeyword::from_raw(naxis_keyword());
    nk2.append_number(2);
    let naxis2_card = value_card(nk2.as_raw(), 0u32);
    let pcount_card = value_card(pcount_keyword(), 0u16);
    let gcount_card = value_card(gcount_keyword(), 1u16);
    let tfields_card = value_card(tfields_keyword(), 0u16);
    let endc = end_card();
    let mut cards: Vec<FitsHeaderCard> = Vec::new();
    cards.push(xtension_card);
    cards.push(bitpix_card);
    cards.push(naxis_card);
    cards.push(naxis1_card);
    cards.push(naxis2_card);
    cards.push(pcount_card);
    cards.push(gcount_card);
    cards.push(tfields_card);
    cards.push(endc);
    Hdu::from_parts(FitsHeader { cards }, Vec::new())
}

/// The stems of the five-letter keywords used with numeric suffixes
/// are their first five bytes: no space or digit occurs earlier.
pub(crate) proof fn lemma_keyword_stem_five(kw: Seq<u8>)
    requires
        kw.len() == 8,
        forall|j: int| 0 <= j < 5 ==> 65 <= #[trigger] kw[j] <= 90,
        kw[5] == 32,
    ensures
        stem_len(kw) == 5,
{
    reveal_with_fuel(stem_len, 9);
    assert(kw.skip(1).skip(1) =~= kw.skip(2));
    assert(kw.skip(2).skip(1) =~= kw.skip(3));
    assert(kw.skip(3).skip(1) =~= kw.skip(4));
    assert(kw.skip(4).skip(1) =~= kw.skip(5));
    assert(kw.skip(1)[0] == kw[1]);
    assert(kw.skip(2)[0] == kw[2]);
    assert(kw.skip(3)[0] == kw[3]);
    assert(kw.skip(4)[0] == kw[4]);
    assert(kw.skip(5)[0] == kw[5]);
}

/// ASCII lower-case folding of one byte.
pub open spec fn ascii_lower(b: u8) -> u8 {
    if 65 <= b <= 90 {
        (b + 32) as u8
    } else {
        b
    }
}

/// ASCII-case-insensitive image of a byte run.
pub open spec fn fold_lower(s: Seq<u8>) -> Seq<u8> {
    s.map_values(|b: u8| ascii_lower(b))
}

/// Compares two byte runs under ASCII case folding.
pub(crate) fn eq_fold(a: &Vec<u8>, b: &Vec<u8>) -> (r: bool)
    ensures
        r == (fold_lower(a@) == fold_lower(b@)),
{
    let n = a.len();
    if n != b.len() {
        assert(fold_lower(a@).len() != fold_lower(b@).len());
        return false;
    }
    let mut i: usize = 0;
    while i < n
        invariant
            i <= n == a@.len() && n == b@.len(),
            forall|j: int| 0 <= j < i ==> fold_lower(a@)[j] == fold_lower(b@)[j],
        decreases n - i,
    {
        let x = a[i];
        let y = b[i];
        let fx = if 65 <= x && x <= 90 {
            x + 32
        } else {
            x
        };
        let fy = if 65 <= y && y <= 90 {
            y + 32
        } else {
            y
        };
        if fx != fy {
            assert(fold_lower(a@)[i as int] != fold_lower(b@)[i as int]);
            return false;
        }
        i += 1;
    }
    assert(fold_lower(a@) =~= fold_lower(b@));
    true
}

/// The column format of column `n`, read from the `TFORM` card with
/// that suffix; the outer option is the card, the inner the decode.
pub open spec fn spec_tform_of(cards: Seq<FitsHeaderCard>, n: int) -> Option<
    Option<(int, TFormType, Seq<u8>)>,
> {
    if 1 <= n <= 999 {
        match find_card(cards, append_number_spec(spec_tform_keyword(), n as u16)) {
            Some(i) => Some(spec_tform_value(cards[i].spec_container())),
            None => None,
        }
    } else {
        None
    }
}

/// True when the `TTYPE` card of column `n` names the column, under
/// ASCII-case-insensitive comparison.
pub open spec fn spec_ttype_matches(
    cards: Seq<FitsHeaderCard>,
    n: int,
    name_folded: Seq<u8>,
) -> bool {
    if 1 <= n <= 999 {
        match find_card(cards, append_number_spec(spec_ttype_keyword(), n as u16)) {
            Some(i) => match spec_string_value(cards[i].spec_container()) {
                Some(nm) => fold_lower(ascii_u8s(nm)) == name_folded,
                None => false,
            },
            None => false,
        }
    } else {
        false
    }
}

/// The named-column search: walks columns `n..=limit`, accumulating
/// each skipped column's byte width, until the column whose `TTYPE`
/// card matches the folded name. `None` when the columns run out, a
/// `TFORM` card is missing, a skipped column has the bit-packed kind,
/// or the accumulated offset leaves the machine's range.
pub open spec fn spec_search_by_name(
    cards: Seq<FitsHeaderCard>,
    name_folded: Seq<u8>,
    n: int,
    limit: int,
    start: int,
) -> Option<(int, TFormType, int)>
    decreases limit - n + 1,
{
    if n > limit {
        None
    } else {
        match spec_tform_of(cards, n) {
            None => None,
            Some(None) => spec_search_by_name(cards, name_folded, n + 1, limit, start),
            Some(Some((rep, t, a))) => {
                if spec_ttype_matches(cards, n, name_folded) {
                    Some((rep, t, start))
                } else if t == TFormType::Bit {
                    None
                } else if start + rep * spec_type_width(t) > usize::MAX {
                    None
                } else {
                    spec_search_by_name(
                        cards,
                        name_folded,
                        n + 1,
                        limit,
                        start + rep * spec_type_width(t),
                    )
                }
            },
        }
    }
}

/// The indexed-column search: walks columns `n..=index`, accumulating
/// each decodable column's byte width, and yields column `index` when
/// its `TFORM` card decodes.
pub open spec fn spec_search_by_index(
    cards: Seq<FitsHeaderCard>,
    n: int,
    index: int,
    start: int,
) -> Option<(int, TFormType, int)>
    decreases index - n + 1,
{
    if n > index {
        None
    } else {
        match spec_tform_of(cards, n) {
            None => None,
            Some(None) => spec_search_by_index(cards, n + 1, index, start),
            Some(Some((rep, t, a))) => {
                if n == index {
                    Some((rep, t, start))
                } else if t == TFormType::Bit {
                    None
                } else if start + rep * spec_type_width(t) > usize::MAX {
                    None
                } else {
                    spec_search_by_index(cards, n + 1, index, start + rep * spec_type_width(t))
                }
            },
        }
    }
}

/// What the column decoder is owed for the found descriptor: exactly
/// what `create_column` promises over the payload.
pub open spec fn column_decode_effect(
    hdu: Hdu,
    rep: int,
    t: TFormType,
    start: int,
    row_len: int,
    num_rows: int,
    r: Option<FitsColumn>,
) -> bool {
    match r {
        Some(col) => {
            &&& rep >= 1
            &&& col_in_bounds(
                hdu.spec_data().len() as int,
                start,
                row_len,
                rep,
                spec_type_width(t) as int,
                num_rows,
            )
            &&& column_decode_ok(col, hdu.spec_data(), rep, t, start, row_len, num_rows)
        },
        None => column_unsupported(t, rep) || !col_in_bounds(
            hdu.spec_data().len() as int,
            start,
            row_len,
            rep,
            spec_type_width(t) as int,
            num_rows,
        ),
    }
}

/// What the named-column lookup returns.
pub open spec fn column_by_name_effect(hdu: Hdu, name: Seq<char>, r: Option<FitsColumn>) -> bool {
    let cards = hdu.spec_header().cards@;
    let num_rows = spec_u32_of(cards, append_number_spec(spec_naxis_keyword(), 2)) as int;
    let row_len = spec_u32_of(cards, append_number_spec(spec_naxis_keyword(), 1)) as int;
    let nameb = fold_lower(vstd::utf8::encode_utf8(name));
    match spec_search_by_name(cards, nameb, 1, num_rows, 0) {
        Some((rep, t, start)) => column_decode_effect(hdu, rep, t, start, row_len, num_rows, r),
        None => r is None,
    }
}

/// What the indexed-column lookup returns.
pub open spec fn column_by_index_effect(hdu: Hdu, index: u16, r: Option<FitsColumn>) -> bool {
    let cards = hdu.spec_header().cards@;
    let num_rows = spec_u32_of(cards, append_number_spec(spec_naxis_keyword(), 2)) as int;
    let row_len = spec_u32_of(cards, append_number_spec(spec_naxis_keyword(), 1)) as int;
    if index as int > num_rows {
        r is None
    } else {
        match spec_search_by_index(cards, 1, index as int, 0) {
            Some((rep, t, start)) => column_decode_effect(
                hdu,
                rep,
                t,
                start,
                row_len,
                num_rows,
                r,
            ),
            None => r is None,
        }
    }
}

/// Reads the `TFORM` descriptor of column `n`, without caching.
fn peek_tform(header: &FitsHeader, n: u32) -> (r: Option<Option<TForm>>)
    requires
        header.wf(),
        n >= 1,
    ensures
        match r {
            None => spec_tform_of(header.cards@, n as int) is None,
            Some(inner) => match spec_tform_of(header.cards@, n as int) {
                Some(sv) => match (inner, sv) {
                    (Some(tf), Some((rep, t, a))) => tf.r == rep && tf.t == t && ascii_u8s(tf.a@)
                        == a,
                    (None, None) => true,
                    _ => false,
                },
                None => false,
            },
        },
{
    if n > 999 {
        return None;
    }
    let mut kw = FitsHeaderKeyword::from_raw(crate::keyword::tform_keyword());
    proof {
        lemma_keyword_stem_five(spec_tform_keyword());
        crate::bytesutil::lemma_dec_repr_len_small(n as nat);
    }
    kw.append_number(n as u16);
    match header.card_index(&kw) {
        None => None,
        Some(i) => {
            let res: Result<TForm, FitsHeaderError> = header.cards[i].peek_value();
            match res {
                Ok(tf) => Some(Some(tf)),
                Err(_) => Some(None),
            }
        },
    }
}

/// Decides whether the `TTYPE` card of column `n` matches the folded
/// name.
fn ttype_matches(header: &FitsHeader, n: u32, nameb: &Vec<u8>) -> (r: bool)
    requires
        header.wf(),
        1 <= n <= 999,
    ensures
        r == spec_ttype_matches(header.cards@, n as int, fold_lower(nameb@)),
{
    let mut kw = FitsHeaderKeyword::from_raw(crate::keyword::ttype_keyword());
    proof {
        lemma_keyword_stem_five(spec_ttype_keyword());
        crate::bytesutil::lemma_dec_repr_len_small(n as nat);
    }
    kw.append_number(n as u16);
    match header.card_index(&kw) {
        None => false,
        Some(i) => {
            let res: Result<String, FitsHeaderError> = header.cards[i].peek_value();
            match res {
                Ok(s) => {
                    proof {
                        crate::header::lemma_card_wf(header.cards@[i as int]);
                        crate::container::lemma_wf_value_encodable(
                            header.cards@[i as int].spec_container(),
                        );
                    }
                    let sb = crate::value::string_to_ascii_bytes(&s);
                    eq_fold(&sb, nameb)
                },
                Err(_) => false,
            }
        },
    }
}

/// Walks the columns by name; see `spec_search_by_name`.
pub(crate) fn column_by_name_impl(hdu: &Hdu, name: &str) -> (r: Option<FitsColumn>)
    requires
        hdu.wf(),
    ensures
        column_by_name_effect(*hdu, name@, r),
{
    let header = hdu.header_ref();
    let ghost cards = header.cards@;
    proof {
        crate::hdu::lemma_hdu_wf(*hdu);
        lemma_keyword_stem_five(spec_naxis_keyword());
        crate::bytesutil::lemma_dec_repr_len_small(1);
        crate::bytesutil::lemma_dec_repr_len_small(2);
    }
    let mut nk2 = FitsHeaderKeyword::from_raw(naxis_keyword());
    nk2.append_number(2);
    let num_rows = crate::hdu::peek_u32_of(header, &nk2);
    let mut nk1 = FitsHeaderKeyword::from_raw(naxis_keyword());
    nk1.append_number(1);
    let row_len = crate::hdu::peek_u32_of(header, &nk1);
    let nameb = vstd::slice::slice_to_vec(name.as_bytes());
    let ghost namef = fold_lower(vstd::utf8::encode_utf8(name@));
    proof {
        assert(fold_lower(nameb@) == namef);
    }
    let mut n: u32 = 1;
    let mut start: u64 = 0;
    loop
        invariant
            hdu.wf(),
            header.wf(),
            cards == header.cards@,
            cards == hdu.spec_header().cards@,
            1 <= n,
            namef == fold_lower(nameb@),
            namef == fold_lower(vstd::utf8::encode_utf8(name@)),
            num_rows == spec_u32_of(cards, append_number_spec(spec_naxis_keyword(), 2)),
            row_len == spec_u32_of(cards, append_number_spec(spec_naxis_keyword(), 1)),
            start <= usize::MAX,
            spec_search_by_name(cards, namef, 1, num_rows as int, 0) == spec_search_by_name(
                cards,
                namef,
                n as int,
                num_rows as int,
                start as int,
            ),
        decreases num_rows as int - n as int + 1,
    {
        if n > num_rows {
            return None;
        }
        match peek_tform(header, n) {
            None => {
                return None;
            },
            Some(None) => {
            },
            Some(Some(tf)) => {
                if ttype_matches(header, n, &nameb) {
                    return tf.create_column(
                        hdu.data_raw(),
                        start as usize,
                        row_len as usize,
                        num_rows as usize,
                    );
                }
                if let TFormType::Bit = tf.t {
                    return None;
                }
                let w = tf.t.width();
                if tf.r as u64 > u64::MAX / (w as u64) {
                    proof {
                        lemma_rep_width_overflow(tf.r as int, w as int);
                    }
                    return None;
                }
                proof {
                    lemma_rep_width_fits(tf.r as int, w as int);
                }
                let add = (tf.r as u64) * (w as u64);
                proof {
                    assert((tf.r as int) * (w as int) >= 0) by (nonlinear_arith)
                        requires
                            tf.r >= 0,
                            w >= 0,
                    ;
                }
                if add > u64::MAX - start {
                    return None;
                }
                let ns = start + add;
                if ns > usize::MAX as u64 {
                    return None;
                }
                start = ns;
            },
        }
        n += 1;
    }
}

/// Walks the columns by index; see `spec_search_by_index`.
pub(crate) fn column_by_index_impl(hdu: &Hdu, index: u16) -> (r: Option<FitsColumn>)
    requires
        hdu.wf(),
    ensures
        column_by_index_effect(*hdu, index, r),
{
    let header = hdu.header_ref();
    let ghost cards = header.cards@;
    proof {
        crate::hdu::lemma_hdu_wf(*hdu);
        lemma_keyword_stem_five(spec_naxis_keyword());
        crate::bytesutil::lemma_dec_repr_len_small(1);
        crate::bytesutil::lemma_dec_repr_len_small(2);
    }
    let mut nk2 = FitsHeaderKeyword::from_raw(naxis_keyword());
    nk2.append_number(2);
    let num_rows = crate::hdu::peek_u32_of(header, &nk2);
    let mut nk1 = FitsHeaderKeyword::from_raw(naxis_keyword());
    nk1.append_number(1);
    let row_len = crate::hdu::peek_u32_of(header, &nk1);
    if index as u32 > num_rows {
        return None;
    }
    let mut n: u32 = 1;
    let mut start: u64 = 0;
    loop
        invariant
            hdu.wf(),
            header.wf(),
            cards == header.cards@,
            cards == hdu.spec_header().cards@,
            1 <= n,
            num_rows == spec_u32_of(cards, append_number_spec(spec_naxis_keyword(), 2)),
            row_len == spec_u32_of(cards, append_number_spec(spec_naxis_keyword(), 1)),
            index as int <= num_rows as int,
            start <= usize::MAX,
            spec_search_by_index(cards, 1, index as int, 0) == spec_search_by_index(
                cards,
                n as int,
                index as int,
                start as int,
            ),
        decreases index as int - n as int + 1,
    {
        if n > index as u32 {
            return None;
        }
        match peek_tform(header, n) {
            None => {
                return None;
            },
            Some(None) => {
            },
            Some(Some(tf)) => {
                if n == index as u32 {
                    return tf.create_column(
                        hdu.data_raw(),
                        start as usize,
                        row_len as usize,
                        num_rows as usize,
                    );
                }
                if let TFormType::Bit = tf.t {
                    return None;
                }
                let w = tf.t.width();
                if tf.r as u64 > u64::MAX / (w as u64) {
                    proof {
                        lemma_rep_width_overflow(tf.r as int, w as int);
                    }
                    return None;
                }
                proof {
                    lemma_rep_width_fits(tf.r as int, w as int);
                }
                let add = (tf.r as u64) * (w as u64);
                proof {
                    assert((tf.r as int) * (w as int) >= 0) by (nonlinear_arith)
                        requires
                            tf.r >= 0,
                            w >= 0,
                    ;
                }
                if add > u64::MAX - start {
                    return None;
                }
                let ns = start + add;
                if ns > usize::MAX as u64 {
                    return None;
                }
                start = ns;
            },
        }
        n += 1;
    }
}

/// A repeat count within `u64::MAX / width` keeps the column width in
/// range.
proof fn lemma_rep_width_fits(rep: int, w: int)
    requires
        1 <= w <= 16,
        0 <= rep <= 0xFFFF_FFFF_FFFF_FFFFint / w,
    ensures
        rep * w <= 0xFFFF_FFFF_FFFF_FFFF,
{
    let m: int = 0xFFFF_FFFF_FFFF_FFFF;
    vstd::arithmetic::div_mod::lemma_fundamental_div_mod(m, w);
    vstd::arithmetic::div_mod::lemma_mod_bound(m, w);
    assert(rep * w <= (m / w) * w) by (nonlinear_arith)
        requires
            rep <= m / w,
            w >= 1,
    ;
    assert((m / w) * w == w * (m / w)) by (nonlinear_arith);
}

/// A repeat count past `u64::MAX / width` pushes the column offset
/// out of the machine's range.
proof fn lemma_rep_width_overflow(rep: int, w: int)
    requires
        1 <= w <= 16,
        rep > 0xFFFF_FFFF_FFFF_FFFFint / w,
    ensures
        rep * w > 0xFFFF_FFFF_FFFF_FFFF,
{
    let m: int = 0xFFFF_FFFF_FFFF_FFFF;
    vstd::arithmetic::div_mod::lemma_fundamental_div_mod(m, w);
    vstd::arithmetic::div_mod::lemma_mod_bound(m, w);
    assert(rep * w >= (m / w + 1) * w) by (nonlinear_arith)
        requires
            rep >= m / w + 1,
            w >= 1,
    ;
    assert((m / w + 1) * w == w * (m / w) + w) by (nonlinear_arith);
}

} // verus!
