//! The combined value and comment region of a header card: 72 bytes
//! that start as raw text and are decoded lazily, at most once per
//! part, with the decoded parts authoritative afterwards.

use vstd::prelude::*;
use vstd::string::{StrSliceExecFns, StringExecFns, StringExecFnsIsAscii};

use crate::bytesutil::{
    all_ascii, check_all_ascii, content_len, copy_range, drop_trailing_spaces, find_byte,
    find_byte_at, push_all, push_repeat, trim_spaces, trim_value, EQUALS, SLASH, SPACE,
};
use crate::error::FitsHeaderError;
use crate::value::{
    ascii_bytes_to_string, ascii_u8s, chars_of, encode_value, string_to_ascii_bytes,
    value_encodable, value_encode, FitsHeaderValue, HeaderValue,
};

verus! {

/// Writes `add` over `base` starting at `at`; bytes that would land
/// past the end of `base` are dropped.
pub open spec fn overlay(base: Seq<u8>, at: int, add: Seq<u8>) -> Seq<u8> {
    Seq::new(base.len(), |i: int| if at <= i < at + add.len() { add[i - at] } else { base[i] })
}

/// Index of the last non-space byte, or 0 when there is none.
pub open spec fn rpos_nonspace(s: Seq<u8>) -> int {
    if content_len(s) > 0 {
        content_len(s) - 1
    } else {
        0
    }
}

/// A representation of the combined header card value and comment.
/// This wrapper ensures that the total number of bytes between the value and comment will not exceed 72.
#[derive(Debug)]
pub struct FitsHeaderValueContainer {
    raw: Vec<u8>,
    value: Option<HeaderValue>,
    comment: Option<String>,
}

/// Position of the value region: at the first `=`, or 0 without one.
pub open spec fn value_start(s: Seq<u8>) -> int {
    match find_byte(s, EQUALS) {
        Some(i) => i,
        None => 0,
    }
}

/// End of the value region: at the first `/`, or the whole rest.
pub open spec fn comment_start(s: Seq<u8>) -> int {
    match find_byte(s, SLASH) {
        Some(i) => i,
        None => s.len() as int,
    }
}

/// The trimmed text of the value region of an undecoded card, with the
/// byte at the region start (normally the `=` marker) dropped; `None`
/// when the region is empty or inverted.
pub open spec fn spec_value_region(s: Seq<u8>) -> Option<Seq<u8>> {
    let p = value_start(s);
    let q = comment_start(s);
    if p < q {
        Some(trim_spaces(s.subrange(p, q).skip(1)))
    } else {
        None
    }
}

impl FitsHeaderValueContainer {
    /// Structural invariant: the raw remainder never exceeds 72 bytes
    /// and is exactly 72 while nothing has been decoded; cached parts
    /// can always be re-encoded.
    pub closed spec fn wf(&self) -> bool {
        &&& self.raw@.len() <= 72
        &&& (match self.value {
            Some(v) => value_encodable(v),
            None => true,
        })
        &&& (match self.comment {
            Some(c) => vstd::utf8::is_ascii_chars(c@) && c@.len() <= 72,
            None => true,
        })
    }

    /// The cached value, if one has been decoded or set.
    pub closed spec fn spec_value(&self) -> Option<HeaderValue> {
        self.value
    }

    /// The cached comment, if one has been decoded or set.
    pub closed spec fn spec_comment(&self) -> Option<Seq<char>> {
        match self.comment {
            Some(c) => Some(c@),
            None => None,
        }
    }

    /// The undecoded remainder.
    pub closed spec fn spec_raw(&self) -> Seq<u8> {
        self.raw@
    }

    /// The 72 serialized bytes: the raw region verbatim while nothing
    /// is decoded, else the canonical value field with the comment (or
    /// the undecoded remainder) laid after the value's last non-space
    /// byte.
    pub closed spec fn spec_bytes(&self) -> Seq<u8> {
        match (self.value, self.comment) {
            (Option::None, Option::None) => self.raw@ + crate::bytesutil::spaces(
                (72 - self.raw@.len()) as nat,
            ),
            (Option::Some(v), Option::None) => {
                let field = seq![EQUALS, SPACE] + value_encode(v);
                overlay(field, rpos_nonspace(field) + 2, self.raw@)
            },
            (Option::Some(v), Option::Some(c)) => {
                let field = seq![EQUALS, SPACE] + value_encode(v);
                let cpos = rpos_nonspace(field) + 2;
                overlay(overlay(field, cpos, seq![SLASH]), cpos + 2, ascii_u8s(c@))
            },
            (Option::None, Option::Some(c)) => {
                let base = overlay(crate::bytesutil::spaces(72), 0, self.raw@);
                let p = self.raw@.len() as int;
                overlay(overlay(base, p + 1, seq![SLASH]), p + 3, ascii_u8s(c@))
            },
        }
    }

    /// Constructs an undecoded container from the 72-byte region of a card.
    pub fn from_raw(raw: Vec<u8>) -> (r: FitsHeaderValueContainer)
        requires
            raw@.len() == 72,
        ensures
            r.wf(),
            r.spec_bytes() == raw@,
            r.spec_value() is None,
            r.spec_comment() is None,
            r.spec_raw() == raw@,
    {
        proof {
            assert(raw@ + crate::bytesutil::spaces(0) =~= raw@);
        }
        FitsHeaderValueContainer { raw, value: None, comment: None }
    }

    /// Constructs a new FitsHeaderValueContainer with the given value and comment.
    /// Fails when the value cannot be encoded or the comment does not
    /// fit after it.
    pub fn new<T: FitsHeaderValue>(value: T, comment: Option<String>) -> (r: Result<
        FitsHeaderValueContainer,
        FitsHeaderError,
    >)
        ensures
            match r {
                Ok(c) => {
                    &&& c.wf()
                    &&& value.encodable()
                    &&& (match c.spec_value() {
                        Some(hv) => T::value_of(value, hv),
                        None => false,
                    })
                    &&& c.spec_comment() == (match comment {
                        Some(s) => Some(s@),
                        None => None::<Seq<char>>,
                    })
                    &&& c.spec_raw() == Seq::<u8>::empty()
                },
                Err(_) => !value.encodable() || (match comment {
                    Some(s) => !vstd::utf8::is_ascii_chars(s@) || !comment_fits_after_value(
                        value.spec_encode(),
                        s@.len() as int,
                    ),
                    None => false,
                }),
            },
    {
        if !value.check_encodable() {
            return Err(FitsHeaderError::InvalidLength {
                expected: 70,
                found: 72,
                intent: String::from_str("header card value"),
            });
        }
        let field = value.to_bytes();
        match comment {
            Some(c) => {
                if !c.is_ascii() {
                    return Err(FitsHeaderError::DeserializationError {
                        found: string_to_bytes_lossy(&c),
                        intent: String::from_str("header card comment"),
                    });
                }
                let cb = string_to_ascii_bytes(&c);
                if !check_comment_fits(&field, cb.len()) {
                    return Err(FitsHeaderError::InvalidLength {
                        expected: 68,
                        found: cb.len(),
                        intent: String::from_str("header card comment"),
                    });
                }
                Ok(FitsHeaderValueContainer {
                    raw: Vec::new(),
                    value: Some(value.to_value()),
                    comment: Some(c),
                })
            },
            None => Ok(FitsHeaderValueContainer {
                raw: Vec::new(),
                value: Some(value.to_value()),
                comment: None,
            }),
        }
    }

    /// Gets the value of the header card.
    /// If the value has not yet been deserialized, the deserialization process is attempted.
    /// If the process succeeds, the deserialized value is cached; the
    /// value region is then dropped from the raw remainder.
    /// Requesting a value of a different kind than the cached one fails
    /// without re-decoding.
    pub fn get_value<T: FitsHeaderValue>(&mut self) -> (r: Result<T, FitsHeaderError>)
        requires
            old(self).wf(),
        ensures
            final(self).wf(),
            value_read_effect::<T>(*old(self), *final(self), r),
    {
        match &self.value {
            Some(hv) => {
                match T::of_value(hv) {
                    Some(x) => Ok(x),
                    None => Err(FitsHeaderError::DeserializationError {
                        found: Vec::new(),
                        intent: String::from_str("header card value kind"),
                    }),
                }
            },
            None => {
                let p = match find_byte_at(&self.raw, EQUALS) {
                    Some(i) => i,
                    None => 0,
                };
                let q = match find_byte_at(&self.raw, SLASH) {
                    Some(i) => i,
                    None => self.raw.len(),
                };
                if p >= q {
                    return Err(FitsHeaderError::DeserializationError {
                        found: Vec::new(),
                        intent: String::from_str("header card value"),
                    });
                }
                let region = copy_range(&self.raw, p + 1, q);
                proof {
                    assert(region@ =~= self.raw@.subrange(p as int, q as int).skip(1));
                }
                let vbytes = trim_value(&region);
                match T::from_bytes(vbytes) {
                    Ok(x) => {
                        let mut kept = copy_range(&self.raw, 0, p);
                        let tail = copy_range(&self.raw, q, self.raw.len());
                        push_all(&mut kept, &tail);
                        proof {
                            assert(kept@ =~= self.raw@.take(p as int) + self.raw@.skip(q as int));
                        }
                        self.raw = kept;
                        self.value = Some(x.to_value());
                        Ok(x)
                    },
                    Err(e) => Err(e),
                }
            },
        }
    }

    /// Gets the comment section of the header card.
    /// If the comment has not yet been deserialized, the deserialization process is attempted.
    /// If the process succeeds, the deserialized comment is cached; a
    /// card without a `/` marker yields an empty comment and is left
    /// unchanged. Comment text is ASCII; other bytes fail the decode.
    pub fn get_comment(&mut self) -> (r: Result<String, FitsHeaderError>)
        requires
            old(self).wf(),
        ensures
            final(self).wf(),
            comment_read_effect(*old(self), *final(self), r),
    {
        match &self.comment {
            Some(c) => Ok(c.clone()),
            None => {
                match find_byte_at(&self.raw, SLASH) {
                    None => Ok(String::new()),
                    Some(q) => {
                        let region = copy_range(&self.raw, q + 1, self.raw.len());
                        proof {
                            assert(region@ =~= self.raw@.skip(q + 1));
                        }
                        let cb = trim_value(&region);
                        proof {
                            crate::bytesutil::lemma_trim_le(region@);
                        }
                        if !check_all_ascii(&cb) {
                            return Err(FitsHeaderError::DeserializationError {
                                found: cb,
                                intent: String::from_str("header card comment"),
                            });
                        }
                        let s = ascii_bytes_to_string(&cb);
                        let kept = copy_range(&self.raw, 0, q);
                        proof {
                            assert(kept@ =~= self.raw@.take(q as int));
                        }
                        self.raw = kept;
                        self.comment = Some(s.clone());
                        Ok(s)
                    },
                }
            },
        }
    }
}

/// A well-formed container only caches values that can be re-encoded.
pub proof fn lemma_wf_value_encodable(c: FitsHeaderValueContainer)
    requires
        c.wf(),
    ensures
        match c.spec_value() {
            Some(v) => value_encodable(v),
            None => true,
        },
{
}

/// The serialized layout of a container, stated over its observable
/// parts: the raw region space-padded while nothing is decoded; else
/// the canonical `= ` value field, with the comment (or the undecoded
/// remainder) laid in after the value's last non-space byte.
pub proof fn lemma_container_bytes_layout(c: FitsHeaderValueContainer)
    ensures
        c.spec_bytes() == (match (c.spec_value(), c.spec_comment()) {
            (Option::None, Option::None) => c.spec_raw() + crate::bytesutil::spaces(
                (72 - c.spec_raw().len()) as nat,
            ),
            (Option::Some(v), Option::None) => {
                let field = seq![EQUALS, SPACE] + value_encode(v);
                overlay(field, rpos_nonspace(field) + 2, c.spec_raw())
            },
            (Option::Some(v), Option::Some(cm)) => {
                let field = seq![EQUALS, SPACE] + value_encode(v);
                let cpos = rpos_nonspace(field) + 2;
                overlay(overlay(field, cpos, seq![SLASH]), cpos + 2, ascii_u8s(cm))
            },
            (Option::None, Option::Some(cm)) => {
                let base = overlay(crate::bytesutil::spaces(72), 0, c.spec_raw());
                let p = c.spec_raw().len() as int;
                overlay(overlay(base, p + 1, seq![SLASH]), p + 3, ascii_u8s(cm))
            },
        }),
{
}

/// A well-formed container always serializes to exactly 72 bytes.
pub proof fn lemma_container_bytes_len(c: FitsHeaderValueContainer)
    requires
        c.wf(),
    ensures
        c.spec_bytes().len() == 72,
{
    match (c.spec_value(), c.spec_comment()) {
        (Option::Some(v), _) => {
            crate::value::lemma_value_encode_len(v);
        },
        _ => {},
    }
}

/// What a caching value read does: an already cached value is checked
/// against the requested kind and returned; otherwise the value region
/// is decoded, cached and dropped from the raw remainder; errors leave
/// the container untouched.
pub open spec fn value_read_effect<T: FitsHeaderValue>(
    pre: FitsHeaderValueContainer,
    post: FitsHeaderValueContainer,
    r: Result<T, FitsHeaderError>,
) -> bool {
    match pre.spec_value() {
        Some(hv) => post == pre && (match r {
            Ok(x) => T::value_of(x, hv) && T::kind_matches(hv),
            Err(_) => !T::kind_matches(hv),
        }),
        None => match spec_value_region(pre.spec_raw()) {
            Some(vb) => match r {
                Ok(x) => {
                    &&& T::decode_ok(vb, x)
                    &&& (match post.spec_value() {
                        Some(hv) => T::value_of(x, hv),
                        None => false,
                    })
                    &&& post.spec_raw() == pre.spec_raw().take(value_start(pre.spec_raw()))
                        + pre.spec_raw().skip(comment_start(pre.spec_raw()))
                    &&& post.spec_comment() == pre.spec_comment()
                },
                Err(_) => post == pre && !T::decodes(vb),
            },
            None => r is Err && post == pre,
        },
    }
}

/// What a non-caching value read returns, for the same container state.
pub open spec fn value_peek_effect<T: FitsHeaderValue>(
    c: FitsHeaderValueContainer,
    r: Result<T, FitsHeaderError>,
) -> bool {
    match c.spec_value() {
        Some(hv) => match r {
            Ok(x) => T::value_of(x, hv) && T::kind_matches(hv),
            Err(_) => !T::kind_matches(hv),
        },
        None => match spec_value_region(c.spec_raw()) {
            Some(vb) => match r {
                Ok(x) => T::decode_ok(vb, x),
                Err(_) => !T::decodes(vb),
            },
            None => r is Err,
        },
    }
}

/// What a comment read does: a cached comment is returned; otherwise
/// the text after the first `/` is decoded, cached and dropped from
/// the raw remainder; a card without a marker yields an empty string
/// and is left unchanged.
pub open spec fn comment_read_effect(
    pre: FitsHeaderValueContainer,
    post: FitsHeaderValueContainer,
    r: Result<String, FitsHeaderError>,
) -> bool {
    &&& post.spec_value() == pre.spec_value()
    &&& (match pre.spec_comment() {
        Some(c) => post == pre && (match r {
            Ok(s) => s@ == c,
            Err(_) => false,
        }),
        None => match find_byte(pre.spec_raw(), SLASH) {
            None => post == pre && (match r {
                Ok(s) => s@ == Seq::<char>::empty(),
                Err(_) => false,
            }),
            Some(q) => {
                let cb = trim_spaces(pre.spec_raw().skip(q + 1));
                if all_ascii(cb) {
                    match r {
                        Ok(s) => {
                            &&& s@ == chars_of(cb)
                            &&& post.spec_comment() == Some(chars_of(cb))
                            &&& post.spec_raw() == pre.spec_raw().take(q)
                        },
                        Err(_) => false,
                    }
                } else {
                    r is Err && post == pre
                }
            },
        },
    })
}

/// What setting a value does: on success the new value is cached, any
/// comment formerly in the raw region is decoded and kept, and the raw
/// remainder is cleared, leaving the card canonical; on failure the
/// container is left exactly as it was.
pub open spec fn value_set_effect<T: FitsHeaderValue>(
    pre: FitsHeaderValueContainer,
    post: FitsHeaderValueContainer,
    value: T,
    r: Result<(), FitsHeaderError>,
) -> bool {
    &&& (match r {
        Ok(_) => {
            &&& value.encodable()
            &&& (match post.spec_value() {
                Some(hv) => T::value_of(value, hv),
                None => false,
            })
            &&& post.spec_raw() == Seq::<u8>::empty()
            &&& post.spec_comment() == after_comment_text(pre.spec_raw(), pre.spec_comment())
        },
        Err(_) => post == pre,
    })
    &&& (r is Ok) == ({
        &&& value.encodable()
        &&& comment_probe_ok(pre.spec_raw(), pre.spec_comment())
        &&& (match after_comment_text(pre.spec_raw(), pre.spec_comment()) {
            Some(c) => comment_fits_after_value(value.spec_encode(), c.len() as int),
            None => true,
        })
    })
}

/// What setting a comment does: on success the new comment replaces
/// any old one, and for an undecoded value the raw region is trimmed
/// so the comment follows the value text; on failure the container is
/// left exactly as it was.
pub open spec fn comment_set_effect(
    pre: FitsHeaderValueContainer,
    post: FitsHeaderValueContainer,
    comment: Option<Seq<char>>,
    r: Result<(), FitsHeaderError>,
) -> bool {
    &&& post.spec_value() == pre.spec_value()
    &&& (match r {
        Ok(_) => {
            &&& post.spec_comment() == comment
            &&& (pre.spec_value() is None ==> post.spec_raw() == drop_trailing_spaces(
                after_comment_raw(pre.spec_raw(), pre.spec_comment() is Some),
            ))
            &&& (pre.spec_value() is Some ==> post.spec_raw() == after_comment_raw(
                pre.spec_raw(),
                pre.spec_comment() is Some,
            ))
        },
        Err(_) => post == pre,
    })
    &&& (r is Ok) == ({
        &&& (match comment {
            Some(c) => vstd::utf8::is_ascii_chars(c),
            None => true,
        })
        &&& comment_probe_ok(pre.spec_raw(), pre.spec_comment())
        &&& (match (pre.spec_value(), comment) {
            (Some(v), Some(c)) => comment_fits_after_value(value_encode(v), c.len() as int),
            (None, Some(c)) => drop_trailing_spaces(
                after_comment_raw(pre.spec_raw(), pre.spec_comment() is Some),
            ).len() + 3 + c.len() <= 72,
            _ => true,
        })
    })
}

/// The raw remainder once the comment region has been split off: the
/// bytes before the first `/`, or everything when the comment is
/// already cached or there is no marker.
pub open spec fn after_comment_raw(raw: Seq<u8>, has_comment: bool) -> Seq<u8> {
    if has_comment {
        raw
    } else {
        match find_byte(raw, SLASH) {
            Some(q) => raw.take(q),
            None => raw,
        }
    }
}

/// The comment once the raw region has been probed: the cached one, or
/// the trimmed text after the first `/`, or none.
pub open spec fn after_comment_text(raw: Seq<u8>, comment: Option<Seq<char>>) -> Option<
    Seq<char>,
> {
    match comment {
        Some(c) => Some(c),
        None => match find_byte(raw, SLASH) {
            Some(q) => Some(chars_of(trim_spaces(raw.skip(q + 1)))),
            None => None,
        },
    }
}

/// True when probing the comment region succeeds: there is nothing to
/// decode, or the text after the `/` is ASCII.
pub open spec fn comment_probe_ok(raw: Seq<u8>, comment: Option<Seq<char>>) -> bool {
    comment is Some || match find_byte(raw, SLASH) {
        Some(q) => all_ascii(trim_spaces(raw.skip(q + 1))),
        None => true,
    }
}

impl FitsHeaderValueContainer {
    /// Reads the value without caching it: decodes the raw region when
    /// nothing is cached yet, and leaves the container untouched.
    /// Requesting a value of a different kind than the cached one fails.
    pub fn peek_value<T: FitsHeaderValue>(&self) -> (r: Result<T, FitsHeaderError>)
        requires
            self.wf(),
        ensures
            value_peek_effect::<T>(*self, r),
    {
        match &self.value {
            Some(hv) => {
                match T::of_value(hv) {
                    Some(x) => Ok(x),
                    None => Err(FitsHeaderError::DeserializationError {
                        found: Vec::new(),
                        intent: String::from_str("header card value kind"),
                    }),
                }
            },
            None => {
                let p = match find_byte_at(&self.raw, EQUALS) {
                    Some(i) => i,
                    None => 0,
                };
                let q = match find_byte_at(&self.raw, SLASH) {
                    Some(i) => i,
                    None => self.raw.len(),
                };
                if p >= q {
                    return Err(FitsHeaderError::DeserializationError {
                        found: Vec::new(),
                        intent: String::from_str("header card value"),
                    });
                }
                let region = copy_range(&self.raw, p + 1, q);
                proof {
                    assert(region@ =~= self.raw@.subrange(p as int, q as int).skip(1));
                }
                let vbytes = trim_value(&region);
                T::from_bytes(vbytes)
            },
        }
    }

    /// Reads the comment without caching it: the cached comment's
    /// bytes, or the trimmed text after the first `/` of the raw
    /// region, or nothing; fails when that text is not ASCII. The
    /// container is left untouched.
    fn probe_comment(&self) -> (r: Result<Option<Vec<u8>>, FitsHeaderError>)
        requires
            self.wf(),
        ensures
            match r {
                Ok(opt) => {
                    &&& comment_probe_ok(self.spec_raw(), self.spec_comment())
                    &&& (match (opt, after_comment_text(self.spec_raw(), self.spec_comment())) {
                        (Some(cb), Some(c)) => cb@ == ascii_u8s(c) && all_ascii(cb@)
                            && cb@.len() <= 72,
                        (None, None) => true,
                        _ => false,
                    })
                },
                Err(_) => !comment_probe_ok(self.spec_raw(), self.spec_comment()),
            },
    {
        match &self.comment {
            Some(c) => {
                let cb = string_to_ascii_bytes(c);
                proof {
                    crate::value::lemma_ascii_u8s_ascii(c@);
                }
                Ok(Some(cb))
            },
            None => {
                match find_byte_at(&self.raw, SLASH) {
                    None => Ok(None),
                    Some(q) => {
                        let region = copy_range(&self.raw, q + 1, self.raw.len());
                        proof {
                            assert(region@ =~= self.raw@.skip(q + 1));
                        }
                        let cb = trim_value(&region);
                        proof {
                            crate::bytesutil::lemma_trim_le(region@);
                        }
                        if !check_all_ascii(&cb) {
                            return Err(FitsHeaderError::DeserializationError {
                                found: cb,
                                intent: String::from_str("header card comment"),
                            });
                        }
                        proof {
                            crate::laws::lemma_chars_roundtrip(cb@);
                        }
                        Ok(Some(cb))
                    },
                }
            },
        }
    }

    /// Sets the value of the header card; any comment still undecoded
    /// in the raw region is decoded and kept. Fails, leaving the card
    /// exactly as it was, when the value cannot be encoded, the stored
    /// comment is not ASCII, or the comment no longer fits after the
    /// new value; the card is left canonical on success.
    pub fn set_value<T: FitsHeaderValue>(&mut self, value: T) -> (r: Result<(), FitsHeaderError>)
        requires
            old(self).wf(),
        ensures
            final(self).wf(),
            value_set_effect::<T>(*old(self), *final(self), value, r),
    {
        if !value.check_encodable() {
            return Err(FitsHeaderError::InvalidLength {
                expected: 70,
                found: 72,
                intent: String::from_str("header card value"),
            });
        }
        match self.probe_comment() {
            Err(e) => Err(e),
            Ok(copt) => {
                let field = value.to_bytes();
                let fits = match &copt {
                    Some(cb) => check_comment_fits(&field, cb.len()),
                    None => true,
                };
                if !fits {
                    return Err(FitsHeaderError::InvalidLength {
                        expected: 68,
                        found: 72,
                        intent: String::from_str("header card comment"),
                    });
                }
                self.comment = match copt {
                    Some(cb) => {
                        let s = ascii_bytes_to_string(&cb);
                        proof {
                            match after_comment_text(
                                old(self).spec_raw(),
                                old(self).spec_comment(),
                            ) {
                                Some(c) => {
                                    crate::value::lemma_u8s_chars_roundtrip(c);
                                },
                                None => {},
                            }
                        }
                        Some(s)
                    },
                    None => None,
                };
                self.raw = Vec::new();
                self.value = Some(value.to_value());
                Ok(())
            },
        }
    }

    /// Sets the comment section of the header card; any comment still
    /// undecoded in the raw region is dropped in its favour. Fails,
    /// leaving the card exactly as it was, when the new comment is not
    /// ASCII text, the old comment region is not readable, or the new
    /// comment does not fit in the room the value leaves.
    pub fn set_comment(&mut self, comment: Option<String>) -> (r: Result<(), FitsHeaderError>)
        requires
            old(self).wf(),
        ensures
            final(self).wf(),
            comment_set_effect(
                *old(self),
                *final(self),
                match comment {
                    Some(c) => Some(c@),
                    None => None,
                },
                r,
            ),
    {
        let cok = match &comment {
            Some(c) => c.is_ascii(),
            None => true,
        };
        if !cok {
            return Err(FitsHeaderError::DeserializationError {
                found: Vec::new(),
                intent: String::from_str("header card comment"),
            });
        }
        match self.probe_comment() {
            Err(e) => Err(e),
            Ok(_) => {
                match &self.value {
                    Some(v) => {
                        let fits = match &comment {
                            Some(c) => {
                                let field = encode_value(v);
                                let cb = string_to_ascii_bytes(c);
                                check_comment_fits(&field, cb.len())
                            },
                            None => true,
                        };
                        if !fits {
                            return Err(FitsHeaderError::InvalidLength {
                                expected: 68,
                                found: 72,
                                intent: String::from_str("header card comment"),
                            });
                        }
                        if self.comment.is_none() {
                            match find_byte_at(&self.raw, SLASH) {
                                Some(q) => {
                                    let kept = copy_range(&self.raw, 0, q);
                                    proof {
                                        assert(kept@ =~= self.raw@.take(q as int));
                                    }
                                    self.raw = kept;
                                },
                                None => {},
                            }
                        }
                        self.comment = comment;
                        Ok(())
                    },
                    None => {
                        let base_end: usize = if self.comment.is_some() {
                            self.raw.len()
                        } else {
                            match find_byte_at(&self.raw, SLASH) {
                                Some(q) => q,
                                None => self.raw.len(),
                            }
                        };
                        let base = copy_range(&self.raw, 0, base_end);
                        proof {
                            assert(self.raw@.subrange(0, self.raw@.len() as int) =~= self.raw@);
                            assert(base@ == after_comment_raw(
                                self.raw@,
                                self.spec_comment() is Some,
                            ));
                        }
                        let kept = crate::bytesutil::trim_trailing(&base);
                        proof {
                            crate::bytesutil::lemma_drop_trailing_spaces_is_prefix(base@);
                        }
                        let fits = match &comment {
                            Some(c) => {
                                let cb = string_to_ascii_bytes(c);
                                cb.len() <= 69 && kept.len() <= 69 - cb.len()
                            },
                            None => true,
                        };
                        if !fits {
                            return Err(FitsHeaderError::InvalidLength {
                                expected: 68,
                                found: 72,
                                intent: String::from_str("header card comment"),
                            });
                        }
                        self.raw = kept;
                        self.comment = comment;
                        Ok(())
                    },
                }
            },
        }
    }

    /// Serializes the container back to its 72 bytes.
    pub fn into_bytes(&self) -> (r: Vec<u8>)
        requires
            self.wf(),
        ensures
            r@ == self.spec_bytes(),
            r@.len() == 72,
    {
        match (&self.value, &self.comment) {
            (Option::None, Option::None) => {
                let mut out = copy_range(&self.raw, 0, self.raw.len());
                proof {
                    assert(self.raw@.subrange(0, self.raw@.len() as int) =~= self.raw@);
                }
                push_repeat(&mut out, SPACE, 72 - self.raw.len());
                proof {
                    assert(out@ =~= self.spec_bytes());
                }
                out
            },
            (Option::Some(v), Option::None) => {
                let mut out: Vec<u8> = Vec::new();
                out.push(EQUALS);
                out.push(SPACE);
                let field = encode_value(v);
                push_all(&mut out, &field);
                proof {
                    assert(out@ =~= seq![EQUALS, SPACE] + value_encode(*v));
                }
                let rp = find_rpos(&out);
                overlay_into(&mut out, rp + 2, &self.raw);
                proof {
                    assert(out@ =~= self.spec_bytes());
                }
                out
            },
            (Option::Some(v), Option::Some(c)) => {
                let mut out: Vec<u8> = Vec::new();
                out.push(EQUALS);
                out.push(SPACE);
                let field = encode_value(v);
                push_all(&mut out, &field);
                proof {
                    assert(out@ =~= seq![EQUALS, SPACE] + value_encode(*v));
                }
                let rp = find_rpos(&out);
                let mut slash: Vec<u8> = Vec::new();
                slash.push(SLASH);
                proof {
                    assert(slash@ =~= seq![SLASH]);
                }
                overlay_into(&mut out, rp + 2, &slash);
                let cb = string_to_ascii_bytes(c);
                overlay_into(&mut out, rp + 4, &cb);
                proof {
                    assert(out@ =~= self.spec_bytes());
                }
                out
            },
            (Option::None, Option::Some(c)) => {
                let mut out = copy_range(&self.raw, 0, self.raw.len());
                proof {
                    assert(self.raw@.subrange(0, self.raw@.len() as int) =~= self.raw@);
                }
                push_repeat(&mut out, SPACE, 72 - self.raw.len());
                let p = self.raw.len();
                proof {
                    assert(out@ =~= overlay(
                        crate::bytesutil::spaces(72),
                        0,
                        self.raw@,
                    ));
                }
                let mut slash: Vec<u8> = Vec::new();
                slash.push(SLASH);
                proof {
                    assert(slash@ =~= seq![SLASH]);
                }
                overlay_into(&mut out, p + 1, &slash);
                let cb = string_to_ascii_bytes(c);
                overlay_into(&mut out, p + 3, &cb);
                proof {
                    assert(out@ =~= self.spec_bytes());
                }
                out
            },
        }
    }
}

/// Writes `add` over `out` starting at `at`, dropping what would land
/// past the end.
pub fn overlay_into(out: &mut Vec<u8>, at: usize, add: &Vec<u8>)
    requires
        at + add@.len() <= usize::MAX,
    ensures
        final(out)@ == overlay(old(out)@, at as int, add@),
{
    let n = add.len();
    let mut k: usize = 0;
    while k < n
        invariant
            k <= n == add@.len(),
            at + n <= usize::MAX,
            out@ == overlay(old(out)@, at as int, add@.take(k as int)),
        decreases n - k,
    {
        if at + k < out.len() {
            out.set(at + k, add[k]);
        }
        proof {
            assert(out@ =~= overlay(old(out)@, at as int, add@.take(k + 1)));
        }
        k += 1;
    }
    proof {
        assert(add@.take(n as int) =~= add@);
    }
}

/// True when a comment of `clen` bytes fits in the card after the
/// given 70-byte value field: the comment is laid 4 bytes after the
/// field's last non-space byte within the 72-byte region.
pub open spec fn comment_fits_after_value(field70: Seq<u8>, clen: int) -> bool {
    rpos_nonspace(seq![EQUALS, SPACE] + field70) + 4 + clen <= 72
}

/// Checks that a comment of `clen` bytes fits after the value field.
pub fn check_comment_fits(field70: &Vec<u8>, clen: usize) -> (r: bool)
    ensures
        r == comment_fits_after_value(field70@, clen as int),
{
    let mut full: Vec<u8> = Vec::new();
    full.push(EQUALS);
    full.push(SPACE);
    push_all(&mut full, field70);
    proof {
        assert(full@ =~= seq![EQUALS, SPACE] + field70@);
    }
    let rp = find_rpos(&full);
    // rp + 4 + clen <= 72, avoiding overflow
    clen <= 68 && rp <= 68 - clen
}

/// Index of the last non-space byte, or 0 when there is none.
pub fn find_rpos(s: &Vec<u8>) -> (r: usize)
    ensures
        r == rpos_nonspace(s@),
        r <= s@.len(),
{
    let tr = crate::bytesutil::trim_trailing(s);
    proof {
        crate::bytesutil::lemma_drop_trailing_spaces_is_prefix(s@);
    }
    if tr.len() > 0 {
        tr.len() - 1
    } else {
        0
    }
}

/// The bytes of a string, for error reporting; non-ASCII characters
/// are replaced by `?`.
fn string_to_bytes_lossy(s: &String) -> (r: Vec<u8>)
    ensures
        r@.len() == s@.len(),
{
    let mut out: Vec<u8> = Vec::new();
    let n = s.as_str().unicode_len();
    let mut i: usize = 0;
    while i < n
        invariant
            i <= n == s@.len(),
            out@.len() == i,
        decreases n - i,
    {
        let c = s.as_str().get_char(i);
        let u = c as u32;
        if u < 128 {
            out.push(u as u8);
        } else {
            out.push(63);
        }
        i += 1;
    }
    out
}


/// What reading this card's value as a `u16` yields, over either
/// representation: the cached value if it is of that kind, else the
/// decoded text of the raw value region.
pub open spec fn spec_u16_value(c: FitsHeaderValueContainer) -> Option<u16> {
    match c.spec_value() {
        Some(v) => match v {
            HeaderValue::UInt16(n) => Some(n),
            _ => None,
        },
        None => match spec_value_region(c.spec_raw()) {
            Some(vb) => match crate::bytesutil::spec_parse_uint(vb, 0xFFFF) {
                Some(v) => Some(v as u16),
                None => None,
            },
            None => None,
        },
    }
}

/// What reading this card's value as a `u32` yields.
pub open spec fn spec_u32_value(c: FitsHeaderValueContainer) -> Option<u32> {
    match c.spec_value() {
        Some(v) => match v {
            HeaderValue::UInt32(n) => Some(n),
            _ => None,
        },
        None => match spec_value_region(c.spec_raw()) {
            Some(vb) => match crate::bytesutil::spec_parse_uint(vb, 0xFFFF_FFFF) {
                Some(v) => Some(v as u32),
                None => None,
            },
            None => None,
        },
    }
}

/// What reading this card's value as a logical yields.
pub open spec fn spec_bool_value(c: FitsHeaderValueContainer) -> Option<bool> {
    match c.spec_value() {
        Some(v) => match v {
            HeaderValue::Logical(b) => Some(b),
            _ => None,
        },
        None => match spec_value_region(c.spec_raw()) {
            Some(vb) => crate::value::spec_decode_logical(vb),
            None => None,
        },
    }
}

/// What reading this card's value as a size tag yields.
pub open spec fn spec_bitpix_value(c: FitsHeaderValueContainer) -> Option<crate::bitpix::Bitpix> {
    match c.spec_value() {
        Some(v) => match v {
            HeaderValue::BitpixValue(b) => Some(b),
            _ => None,
        },
        None => match spec_value_region(c.spec_raw()) {
            Some(vb) => crate::bitpix::spec_decode_bitpix(vb),
            None => None,
        },
    }
}

/// What reading this card's value as a string yields, as characters.
pub open spec fn spec_string_value(c: FitsHeaderValueContainer) -> Option<Seq<char>> {
    match c.spec_value() {
        Some(v) => match v {
            HeaderValue::Text(t) => Some(t@),
            _ => None,
        },
        None => match spec_value_region(c.spec_raw()) {
            Some(vb) => if crate::value::string_decodes(vb) {
                Some(chars_of(crate::value::string_text(vb)))
            } else {
                None
            },
            None => None,
        },
    }
}

/// What reading this card's value as a column format descriptor
/// yields: repeat count, element type, and annotation bytes.
pub open spec fn spec_tform_value(c: FitsHeaderValueContainer) -> Option<
    (int, crate::tform::TFormType, Seq<u8>),
> {
    match c.spec_value() {
        Some(v) => match v {
            HeaderValue::TFormValue(t) => Some(
                (t.r as int, t.t, ascii_u8s(t.a@)),
            ),
            _ => None,
        },
        None => match spec_value_region(c.spec_raw()) {
            Some(vb) => crate::tform::spec_decode_tform(vb),
            None => None,
        },
    }
}

} // verus!
