//! The general properties of the codec, stated and proved once: each
//! built-in value codec reproduces its value through a decode of its
//! own encoding, and the terminator scan recognizes exactly the
//! records whose trailing run of true cards ends in the terminator.

use vstd::prelude::*;

use crate::bitpix::{spec_bitpix_literal, spec_decode_bitpix, spec_encode_bitpix, Bitpix};
use crate::bytesutil::{
    all_ascii, dec_repr, drop_trailing_spaces, is_digit, lemma_dec_repr_len_u32,
    lemma_dec_repr_val, lemma_drop_leading_spaces_nonspace, lemma_drop_trailing_spaces_nonspace,
    lemma_trim_le, spaces, spec_parse_uint, trim_spaces, QUOTE, SPACE,
};
use crate::hdu_list::scan_back;
use crate::keyword::{spec_blank_keyword, spec_end_keyword};
use crate::value::{
    ascii_u8s, chars_of, escape_quotes, quoted_field, spec_decode_logical, spec_encode_logical,
    spec_encode_uint, string_decodes, string_text, unquote,
};

verus! {

/// A sequence with non-space ends survives padding with spaces on
/// both sides.
pub proof fn lemma_trim_padded(s: Seq<u8>, a: nat, b: nat)
    requires
        s.len() > 0,
        s[0] != SPACE,
        s.last() != SPACE,
    ensures
        trim_spaces(spaces(a) + s + spaces(b)) == s,
{
    let w = spaces(a) + s + spaces(b);
    assert(w.len() == a + s.len() + b);
    assert(forall|j: int| 0 <= j < a ==> w[j] == SPACE);
    assert(w[a as int] == s[0]);
    lemma_drop_leading_spaces_nonspace(w, a as int);
    let v = w.skip(a as int);
    assert(v =~= s + spaces(b));
    assert(v[s.len() - 1] == s.last());
    assert(forall|j: int| s.len() <= j < v.len() ==> v[j] == SPACE);
    lemma_drop_trailing_spaces_nonspace(v, s.len() - 1);
    assert(v.take(s.len() as int) =~= s);
}

/// Law: the logical codec round-trips. Decoding the trimmed field
/// that a logical value encodes to yields that value back.
pub proof fn lemma_logical_codec_round_trip(v: bool)
    ensures
        spec_decode_logical(trim_spaces(spec_encode_logical(v))) == Some(v),
{
    let lit = seq![if v {
        crate::value::LETTER_T
    } else {
        crate::value::LETTER_F
    }];
    lemma_trim_padded(lit, 19, 50);
    assert(spec_encode_logical(v) =~= spaces(19) + lit + spaces(50));
    if v {
        assert(lit =~= seq![crate::value::LETTER_T]);
    } else {
        assert(lit =~= seq![crate::value::LETTER_F]);
        assert(lit[0] == crate::value::LETTER_F);
        assert(lit != seq![crate::value::LETTER_T]);
    }
}

/// Law: the unsigned integer codec round-trips. Decoding the trimmed
/// field that a value encodes to parses back to that value.
pub proof fn lemma_uint_codec_round_trip(n: nat)
    requires
        n <= 0xFFFF_FFFF,
    ensures
        spec_parse_uint(trim_spaces(spec_encode_uint(n)), 0xFFFF_FFFF) == Some(n as int),
{
    let d = dec_repr(n);
    lemma_dec_repr_val(n);
    lemma_dec_repr_len_u32(n);
    assert(is_digit(d[0]) && is_digit(d.last()));
    lemma_trim_padded(d, (20 - d.len()) as nat, 50);
    assert(spec_encode_uint(n) =~= spaces((20 - d.len()) as nat) + d + spaces(50));
    assert(d[0] != crate::bytesutil::PLUS);
}

/// Law: the size-tag codec round-trips. Decoding the trimmed field
/// that a size tag encodes to yields that tag back.
pub proof fn lemma_bitpix_codec_round_trip(b: Bitpix)
    ensures
        spec_decode_bitpix(trim_spaces(spec_encode_bitpix(b))) == Some(b),
{
    let lit = spec_bitpix_literal(b);
    assert(lit.len() > 0 && lit[0] != SPACE && lit.last() != SPACE) by {
        match b {
            Bitpix::U8 => {},
            Bitpix::I16 => {},
            Bitpix::I32 => {},
            Bitpix::F32 => {},
            Bitpix::F64 => {},
        }
    }
    lemma_trim_padded(lit, (20 - lit.len()) as nat, 50);
    assert(spec_encode_bitpix(b) =~= spaces((20 - lit.len()) as nat) + lit + spaces(50));
    match b {
        Bitpix::U8 => {},
        Bitpix::I16 => {
            assert(lit != spec_bitpix_literal(Bitpix::U8));
        },
        Bitpix::I32 => {
            assert(lit != spec_bitpix_literal(Bitpix::U8));
            assert(lit != spec_bitpix_literal(Bitpix::I16));
        },
        Bitpix::F32 => {
            assert(lit != spec_bitpix_literal(Bitpix::U8));
            assert(lit != spec_bitpix_literal(Bitpix::I16));
            assert(lit != spec_bitpix_literal(Bitpix::I32));
        },
        Bitpix::F64 => {
            assert(lit != spec_bitpix_literal(Bitpix::U8));
            assert(lit != spec_bitpix_literal(Bitpix::I16));
            assert(lit != spec_bitpix_literal(Bitpix::I32));
            assert(lit != spec_bitpix_literal(Bitpix::F32));
        },
    }
}

/// True when the text can pass through the quote folding of the string
/// codec unharmed: no quote opens it or closes it, and no two quotes
/// stand together.
pub open spec fn quote_isolated(t: Seq<u8>) -> bool {
    &&& (t.len() > 0 ==> t[0] != QUOTE && t.last() != QUOTE)
    &&& (forall|i: int| 0 <= i < t.len() - 1 ==> !(t[i] == QUOTE && #[trigger] t[i + 1] == QUOTE))
}

/// The value of the quote-folding flag after a byte run passes
/// through it.
pub open spec fn flag_after(t: Seq<u8>, r_in: bool) -> bool {
    if t.len() == 0 {
        r_in
    } else {
        t.last() != QUOTE
    }
}

/// Un-escaping inverts escaping, byte run by byte run, tracking the
/// quote-folding flag through the run.
proof fn lemma_unquote_escape(t: Seq<u8>, rest: Seq<u8>, r_in: bool)
    requires
        forall|i: int| 0 <= i < t.len() - 1 ==> !(t[i] == QUOTE && #[trigger] t[i + 1] == QUOTE),
        t.len() > 0 && t[0] == QUOTE ==> r_in,
    ensures
        unquote(escape_quotes(t) + rest, r_in) == t + unquote(rest, flag_after(t, r_in)),
    decreases t.len(),
{
    if t.len() == 0 {
        assert(escape_quotes(t) + rest =~= rest);
        assert(t + unquote(rest, r_in) =~= unquote(rest, r_in));
    } else if t[0] != QUOTE {
        let t1 = t.skip(1);
        assert(forall|i: int|
            0 <= i < t1.len() - 1 ==> !(t1[i] == QUOTE && #[trigger] t1[i + 1] == QUOTE)) by {
            assert(forall|i: int| 0 <= i < t1.len() ==> t1[i] == t[i + 1]);
        }
        lemma_unquote_escape(t1, rest, true);
        let w = escape_quotes(t) + rest;
        assert(w =~= seq![t[0]] + (escape_quotes(t1) + rest));
        assert(w[0] == t[0]);
        assert(w.skip(1) =~= escape_quotes(t1) + rest);
        assert(unquote(w, r_in) == seq![t[0]] + unquote(escape_quotes(t1) + rest, true));
        assert(seq![t[0]] + t1 =~= t);
        if t.len() == 1 {
            assert(flag_after(t1, true) == flag_after(t, r_in));
        } else {
            assert(t1.last() == t.last());
        }
        assert(seq![t[0]] + (t1 + unquote(rest, flag_after(t1, true))) =~= t + unquote(
            rest,
            flag_after(t, r_in),
        ));
    } else {
        let t1 = t.skip(1);
        assert(t.len() >= 2 ==> t[1] != QUOTE);
        assert(t1.len() > 0 ==> t1[0] != QUOTE);
        assert(forall|i: int|
            0 <= i < t1.len() - 1 ==> !(t1[i] == QUOTE && #[trigger] t1[i + 1] == QUOTE)) by {
            assert(forall|i: int| 0 <= i < t1.len() ==> t1[i] == t[i + 1]);
        }
        lemma_unquote_escape(t1, rest, false);
        let w = escape_quotes(t) + rest;
        assert(escape_quotes(t) =~= seq![QUOTE, QUOTE] + escape_quotes(t1));
        assert(w =~= seq![QUOTE, QUOTE] + (escape_quotes(t1) + rest));
        assert(w[0] == QUOTE);
        let w1 = seq![QUOTE] + (escape_quotes(t1) + rest);
        assert(w.skip(1) =~= w1);
        assert(unquote(w, true) == unquote(w1, false));
        assert(w1[0] == QUOTE);
        assert(w1.skip(1) =~= escape_quotes(t1) + rest);
        assert(unquote(w1, false) == seq![QUOTE] + unquote(escape_quotes(t1) + rest, false));
        assert(seq![QUOTE] + t1 =~= t);
        if t.len() == 1 {
            assert(flag_after(t1, false) == false);
            assert(flag_after(t, r_in) == false);
        } else {
            assert(t1.last() == t.last());
        }
        assert(seq![QUOTE] + (t1 + unquote(rest, flag_after(t1, false))) =~= t + unquote(
            rest,
            flag_after(t, r_in),
        ));
    }
}

/// Law: the string codec round-trips. A trimmed ASCII text whose
/// quotes stand isolated decodes back from its own quoted field.
pub proof fn lemma_string_codec_round_trip(t: Seq<u8>)
    requires
        all_ascii(t),
        escape_quotes(t).len() <= 68,
        t == trim_spaces(t),
        quote_isolated(t),
    ensures
        string_decodes(trim_spaces(quoted_field(escape_quotes(t)))),
        string_text(trim_spaces(quoted_field(escape_quotes(t)))) == t,
        ascii_u8s(chars_of(t)) == t,
{
    let esc = escape_quotes(t);
    let content = if esc.len() < 8 {
        esc + spaces((8 - esc.len()) as nat)
    } else {
        esc
    };
    let field = quoted_field(esc);
    let core = seq![QUOTE] + content + seq![QUOTE];
    assert(field =~= spaces(0) + core + spaces((68 - content.len()) as nat));
    assert(core[0] == QUOTE && core.last() == QUOTE);
    lemma_trim_padded(core, 0, (68 - content.len()) as nat);
    assert(trim_spaces(field) == core);
    let inner = content + seq![QUOTE];
    assert(core[0] == QUOTE);
    assert(core.skip(1) =~= inner);
    assert(unquote(core, true) == unquote(inner, false));
    if esc.len() < 8 {
        let pad = spaces((8 - esc.len()) as nat);
        assert(inner =~= esc + (pad + seq![QUOTE]));
        lemma_unquote_escape(t, pad + seq![QUOTE], false);
        lemma_unquote_spaces_quote((8 - esc.len()) as nat, flag_after(t, false));
        assert(unquote(inner, false) == t + (pad + Seq::<u8>::empty()));
        assert(t + (pad + Seq::<u8>::empty()) =~= t + pad);
        assert(trim_spaces(t + pad) == t) by {
            if t.len() == 0 {
                crate::bytesutil::lemma_all_spaces_trim_empty(t + pad);
                assert(t =~= Seq::<u8>::empty());
            } else {
                lemma_trim_structure(t);
                lemma_trim_padded(t, 0, pad.len());
                assert(spaces(0) + t + spaces(pad.len()) =~= t + pad);
            }
        }
        assert(unquote(core, true) =~= t + pad);
    } else {
        assert(inner =~= esc + (Seq::<u8>::empty() + seq![QUOTE]));
        assert(Seq::<u8>::empty() + seq![QUOTE] =~= seq![QUOTE]);
        assert(inner =~= esc + seq![QUOTE]);
        lemma_unquote_escape(t, seq![QUOTE], false);
        assert(t.len() > 0) by {
            if t.len() == 0 {
                assert(escape_quotes(t).len() == 0);
            }
        }
        assert(t.last() != QUOTE);
        assert(flag_after(t, false) == true);
        assert(seq![QUOTE].skip(1) =~= Seq::<u8>::empty());
        assert(unquote(seq![QUOTE], true) == unquote(Seq::<u8>::empty(), false));
        assert(unquote(Seq::<u8>::empty(), false) =~= Seq::<u8>::empty());
        assert(unquote(inner, false) == t + Seq::<u8>::empty());
        assert(t + Seq::<u8>::empty() =~= t);
        assert(trim_spaces(t) == t);
        assert(unquote(core, true) =~= t);
    }
    assert(string_text(trim_spaces(field)) == t);
    lemma_chars_roundtrip(t);
}

/// Un-escaping a run of one or more spaces closed by a final quote
/// keeps the spaces and drops the quote, whatever the flag held.
proof fn lemma_unquote_spaces_quote(p: nat, r_in: bool)
    requires
        p >= 1,
    ensures
        unquote(spaces(p) + seq![QUOTE], r_in) == spaces(p) + Seq::<u8>::empty(),
    decreases p,
{
    let w = spaces(p) + seq![QUOTE];
    assert(w[0] == SPACE);
    if p == 1 {
        assert(w.skip(1) =~= seq![QUOTE]);
        assert(seq![QUOTE].skip(1) =~= Seq::<u8>::empty());
        assert(unquote(seq![QUOTE], true) == unquote(Seq::<u8>::empty(), false));
        assert(unquote(Seq::<u8>::empty(), false) =~= Seq::<u8>::empty());
        assert(unquote(w, r_in) == seq![SPACE] + Seq::<u8>::empty());
        assert(seq![SPACE] + Seq::<u8>::empty() =~= spaces(1) + Seq::<u8>::empty());
    } else {
        assert(w.skip(1) =~= spaces((p - 1) as nat) + seq![QUOTE]);
        lemma_unquote_spaces_quote((p - 1) as nat, true);
        assert(unquote(w, r_in) == seq![SPACE] + (spaces((p - 1) as nat) + Seq::<u8>::empty()));
        assert(seq![SPACE] + (spaces((p - 1) as nat) + Seq::<u8>::empty()) =~= spaces(p)
            + Seq::<u8>::empty());
    }
}

/// A sequence equal to its own trim has non-space ends.
proof fn lemma_trim_structure(t: Seq<u8>)
    requires
        t.len() > 0,
        t == trim_spaces(t),
    ensures
        t[0] != SPACE,
        t.last() != SPACE,
{
    if t[0] == SPACE {
        assert(crate::bytesutil::drop_leading_spaces(t) == crate::bytesutil::drop_leading_spaces(
            t.skip(1),
        ));
        lemma_trim_le(t.skip(1));
        assert(trim_spaces(t) == trim_spaces(t.skip(1)));
        assert(trim_spaces(t).len() <= t.len() - 1);
    }
    if t.last() == SPACE {
        let dl = crate::bytesutil::drop_leading_spaces(t);
        lemma_drop_leading_last(t);
        if dl.len() == 0 {
            assert(trim_spaces(t).len() == 0);
        } else {
            assert(dl.last() == SPACE);
            assert(drop_trailing_spaces(dl) == drop_trailing_spaces(dl.drop_last()));
            lemma_trim_le(dl.drop_last());
            crate::bytesutil::lemma_trim_le(t);
            assert(dl.len() <= t.len()) by {
                lemma_trim_le(t);
            }
            assert(trim_spaces(t).len() <= dl.len() - 1);
        }
    }
}

/// Dropping leading spaces keeps the last byte.
proof fn lemma_drop_leading_last(t: Seq<u8>)
    requires
        t.len() > 0,
    ensures
        crate::bytesutil::drop_leading_spaces(t).len() > 0
            ==> crate::bytesutil::drop_leading_spaces(t).last() == t.last(),
    decreases t.len(),
{
    if t[0] == SPACE && t.len() > 1 {
        lemma_drop_leading_last(t.skip(1));
        assert(t.skip(1).last() == t.last());
        assert(crate::bytesutil::drop_leading_spaces(t)
            == crate::bytesutil::drop_leading_spaces(t.skip(1)));
    } else if t[0] == SPACE {
        assert(t.skip(1) =~= Seq::<u8>::empty());
        assert(crate::bytesutil::drop_leading_spaces(t)
            == crate::bytesutil::drop_leading_spaces(t.skip(1)));
        assert(crate::bytesutil::drop_leading_spaces(Seq::<u8>::empty()) =~= Seq::<u8>::empty());
    } else {
        assert(crate::bytesutil::drop_leading_spaces(t) == t);
    }
}

/// The bytes of the characters of an ASCII byte run are the run
/// itself.
pub proof fn lemma_chars_roundtrip(t: Seq<u8>)
    requires
        all_ascii(t),
    ensures
        ascii_u8s(chars_of(t)) == t,
        vstd::utf8::is_ascii_chars(chars_of(t)),
{
    assert(ascii_u8s(chars_of(t)) =~= t) by {
        assert(forall|i: int|
            0 <= i < t.len() ==> #[trigger] ascii_u8s(chars_of(t))[i] == ((t[i] as char) as u8));
    }
    assert forall|i: int| 0 <= i < chars_of(t).len() implies '\0' <= #[trigger] chars_of(t)[i]
        <= '\u{7f}' by {
        assert(chars_of(t)[i] == t[i] as char);
    }
}

/// Law: the terminator scan accepts a record exactly when some card,
/// scanning backward from the end, carries the terminator keyword with
/// nothing but all-space filler cards behind it.
pub proof fn lemma_scan_characterization(block: Seq<u8>)
    requires
        block.len() == 2880,
    ensures
        scan_back(block, 1) == exists|c: int|
            {
                &&& 1 <= c <= 36
                &&& #[trigger] block.subrange(2880 - 80 * c, 2880 - 80 * c + 8)
                    == spec_end_keyword()
                &&& (forall|d: int|
                    1 <= d < c ==> #[trigger] block.subrange(2880 - 80 * d, 2880 - 80 * d + 8)
                        == spec_blank_keyword())
            },
{
    lemma_scan_from(block, 1);
}

/// The scan from card `c` accepts exactly when the terminator stands
/// at some card at or past `c` with filler cards between.
proof fn lemma_scan_from(block: Seq<u8>, c0: int)
    requires
        block.len() == 2880,
        1 <= c0 <= 37,
    ensures
        scan_back(block, c0) == exists|c: int|
            {
                &&& c0 <= c <= 36
                &&& #[trigger] block.subrange(2880 - 80 * c, 2880 - 80 * c + 8)
                    == spec_end_keyword()
                &&& (forall|d: int|
                    c0 <= d < c ==> #[trigger] block.subrange(2880 - 80 * d, 2880 - 80 * d + 8)
                        == spec_blank_keyword())
            },
    decreases 37 - c0,
{
    if c0 > 36 {
        assert(!scan_back(block, c0));
    } else {
        let kw = block.subrange(2880 - 80 * c0, 2880 - 80 * c0 + 8);
        if kw == spec_end_keyword() {
            assert(scan_back(block, c0));
            assert(exists|c: int|
                {
                    &&& c0 <= c <= 36
                    &&& #[trigger] block.subrange(2880 - 80 * c, 2880 - 80 * c + 8)
                        == spec_end_keyword()
                    &&& (forall|d: int|
                        c0 <= d < c ==> #[trigger] block.subrange(
                            2880 - 80 * d,
                            2880 - 80 * d + 8,
                        ) == spec_blank_keyword())
                }) by {
                assert(c0 <= c0 <= 36 && block.subrange(2880 - 80 * c0, 2880 - 80 * c0 + 8)
                    == spec_end_keyword() && (forall|d: int|
                    c0 <= d < c0 ==> #[trigger] block.subrange(2880 - 80 * d, 2880 - 80 * d + 8)
                        == spec_blank_keyword()));
            }
        } else if kw == spec_blank_keyword() {
            lemma_scan_from(block, c0 + 1);
        } else {
            assert(!scan_back(block, c0));
        }
    }
}


/// Law: serialization round-trips through realization. A container
/// built over a byte source serializes back to it exactly, as long as
/// realizing its HDUs appended no zero fill — which only happens when
/// the source ends inside a declared payload. With `from_bytes` tying
/// the container's image to the source and `to_bytes` returning the
/// image, this pins `to_bytes` after any run of reads to the original
/// bytes.
pub proof fn lemma_container_round_trip(pre: crate::hdu_list::HduList, post: crate::hdu_list::HduList)
    requires
        crate::hdu_list::realized_from(pre, post),
        post.spec_bytes().len() == pre.spec_bytes().len(),
    ensures
        post.spec_bytes() == pre.spec_bytes(),
{
    let pad = choose|pad: nat|
        post.spec_bytes() == pre.spec_bytes() + #[trigger] crate::bytesutil::zeros(pad);
    assert(pad == 0);
    assert(pre.spec_bytes() + crate::bytesutil::zeros(0) =~= pre.spec_bytes());
}

} // verus!
