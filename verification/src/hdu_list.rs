//! The whole container: realized HDUs in order, plus the unread tail
//! of the byte source. Section boundaries carry no length field, so
//! HDUs are discovered strictly in order, by scanning each header
//! record backward for the terminator card.

use vstd::prelude::*;

use crate::bytesutil::{copy_range, push_all, push_repeat, round_record, zeros};
use crate::error::FitsHeaderError;
use crate::hdu::{spec_payload_len, Hdu};
use crate::header::{cards_bytes, FitsHeader};
use crate::keyword::{spec_blank_keyword, spec_end_keyword};

verus! {

/// Backward scan of one 2880-byte record, starting at its `c`-th card
/// from the end: true when the terminator keyword is found before any
/// keyword other than the all-space filler.
pub open spec fn scan_back(block: Seq<u8>, c: int) -> bool
    decreases 37 - c,
{
    if c < 1 || c > 36 {
        false
    } else {
        let kw = block.subrange(2880 - 80 * c, 2880 - 80 * c + 8);
        if kw == spec_end_keyword() {
            true
        } else if kw == spec_blank_keyword() {
            scan_back(block, c + 1)
        } else {
            false
        }
    }
}

/// End of the header that starts at `start`: the least record boundary
/// whose record passes the terminator scan, or `None` when the source
/// ends first.
pub open spec fn find_header_end(b: Seq<u8>, start: int) -> Option<int>
    decreases b.len() - start,
{
    if start < 0 || start + 2880 > b.len() {
        None
    } else if scan_back(b.subrange(start, start + 2880), 1) {
        Some(start + 2880)
    } else {
        find_header_end(b, start + 2880)
    }
}

/// The serialized bytes of a run of HDUs.
pub open spec fn hdus_bytes(hdus: Seq<Hdu>) -> Seq<u8>
    decreases hdus.len(),
{
    if hdus.len() == 0 {
        Seq::<u8>::empty()
    } else {
        hdus_bytes(hdus.drop_last()) + hdus.last().spec_bytes()
    }
}

/// Structural invariant over a run of HDUs.
pub open spec fn hdus_wf(hdus: Seq<Hdu>) -> bool {
    forall|i: int| 0 <= i < hdus.len() ==> (#[trigger] hdus[i]).wf()
}

/// The declared payload length rounded up to a record boundary,
/// saturated once it leaves the range a machine word can hold.
pub open spec fn sat_round(plen: nat) -> nat {
    if plen % 2880 == 0 && plen <= 0xFFFF_FFFF_FFFF_FFFF {
        plen
    } else if plen <= 0xFFFF_FFFF_FFFF_FFFF - 2880 {
        round_record(plen)
    } else {
        0xFFFF_FFFF_FFFF_FFFF
    }
}

/// The payload take length: the rounded payload length, but never more
/// than the source still offers.
pub open spec fn spec_take_len(plen: nat, avail: nat) -> nat {
    if sat_round(plen) <= avail {
        sat_round(plen)
    } else {
        avail
    }
}

/// A representation of the entirety of a FITS file.
#[derive(Debug)]
pub struct HduList {
    hdus: Vec<Hdu>,
    rest: Vec<u8>,
}

impl HduList {
    /// Structural invariant of the list.
    pub closed spec fn wf(&self) -> bool {
        hdus_wf(self.hdus@)
    }

    /// The realized HDUs.
    pub closed spec fn spec_hdus(&self) -> Seq<Hdu> {
        self.hdus@
    }

    /// The unread tail of the source.
    pub closed spec fn spec_rest(&self) -> Seq<u8> {
        self.rest@
    }

    /// The serialized bytes: each realized HDU, then the unread tail
    /// verbatim.
    pub open spec fn spec_bytes(&self) -> Seq<u8> {
        hdus_bytes(self.spec_hdus()) + self.spec_rest()
    }

    /// Constructs an empty HduList.
    pub fn new() -> (r: HduList)
        ensures
            r.wf(),
            r.spec_hdus().len() == 0,
            r.spec_rest().len() == 0,
            r.spec_bytes() == Seq::<u8>::empty(),
    {
        let r = HduList { hdus: Vec::new(), rest: Vec::new() };
        proof {
            assert(r.spec_bytes() =~= Seq::<u8>::empty());
        }
        r
    }

    /// Constructs an HduList over the given bytes. HDUs are realized
    /// from the buffer on demand; the buffer is held verbatim until
    /// then, so serializing reproduces it exactly.
    pub fn from_bytes(raw: Vec<u8>) -> (r: Result<HduList, FitsHeaderError>)
        ensures
            match r {
                Ok(l) => {
                    &&& l.wf()
                    &&& l.spec_hdus().len() == 0
                    &&& l.spec_rest() == raw@
                    &&& l.spec_bytes() == raw@
                },
                Err(_) => false,
            },
    {
        let l = HduList { hdus: Vec::new(), rest: raw };
        proof {
            assert(l.spec_bytes() =~= l.rest@);
        }
        Ok(l)
    }

    /// Serializes the whole container back to bytes.
    pub fn to_bytes(&self) -> (r: Vec<u8>)
        requires
            self.wf(),
        ensures
            r@ == self.spec_bytes(),
    {
        let n = self.hdus.len();
        let mut out: Vec<u8> = Vec::new();
        let mut i: usize = 0;
        proof {
            assert(hdus_bytes(self.hdus@.take(0)) =~= Seq::<u8>::empty());
        }
        while i < n
            invariant
                i <= n == self.hdus@.len(),
                hdus_wf(self.hdus@),
                out@ == hdus_bytes(self.hdus@.take(i as int)),
            decreases n - i,
        {
            let chunk = self.hdus[i].to_bytes();
            push_all(&mut out, &chunk);
            proof {
                assert(self.hdus@.take(i + 1).drop_last() =~= self.hdus@.take(i as int));
                assert(self.hdus@.take(i + 1).last() == self.hdus@[i as int]);
            }
            i += 1;
        }
        proof {
            assert(self.hdus@.take(n as int) =~= self.hdus@);
        }
        push_all(&mut out, &self.rest);
        out
    }

    /// Realizes the next HDU from the unread tail, if a complete
    /// header can be found there. The consumed bytes are reproduced
    /// exactly by the new HDU, except that a payload cut short by the
    /// end of the source is zero-filled to its record boundary.
    #[verifier::rlimit(80)]
    fn read_hdu(&mut self) -> (r: bool)
        requires
            old(self).wf(),
        ensures
            final(self).wf(),
            match find_header_end(old(self).spec_rest(), 0) {
                None => r == false && final(self).spec_hdus() == old(self).spec_hdus()
                    && final(self).spec_rest() == old(self).spec_rest(),
                Some(hl) => {
                    let rest0 = old(self).spec_rest();
                    let h = final(self).spec_hdus().last();
                    let plen = spec_payload_len(h.spec_header().cards@);
                    let take = spec_take_len(plen, (rest0.len() - hl) as nat);
                    let pad = round_record(take) - take;
                    &&& r == true
                    &&& final(self).spec_hdus() == old(self).spec_hdus().push(h)
                    &&& h.wf()
                    &&& cards_bytes(h.spec_header().cards@) == rest0.take(hl)
                    &&& h.spec_header().cards@.len() == hl / 80
                    &&& (forall|i: int|
                        0 <= i < hl / 80 ==> crate::header::fresh_card_at(
                            #[trigger] h.spec_header().cards@[i],
                            rest0.take(hl),
                            i,
                        ))
                    &&& h.spec_data() == rest0.subrange(hl, hl + take) + zeros(pad as nat)
                    &&& final(self).spec_rest() == rest0.skip(hl + take)
                    &&& final(self).spec_bytes() == old(self).spec_bytes() + zeros(pad as nat)
                    &&& (pad != 0 ==> final(self).spec_rest().len() == 0)
                },
            },
    {
        let ghost rest0 = self.rest@;
        let n = self.rest.len();
        let hl: usize = match self.find_header_boundary() {
            Some(hl) => hl,
            None => {
                return false;
            },
        };
        assert(find_header_end(rest0, 0) == Some(hl as int));
        let header_raw = copy_range(&self.rest, 0, hl);
        proof {
            assert(header_raw@ =~= rest0.take(hl as int));
            vstd::arithmetic::div_mod::lemma_fundamental_div_mod(hl as int, 2880);
            assert(hl % 80 == 0) by (nonlinear_arith)
                requires
                    hl as int == 2880 * (hl as int / 2880) + (hl as int) % 2880,
                    hl % 2880 == 0,
            ;
        }
        let header = match FitsHeader::from_bytes(header_raw) {
            Ok(h) => h,
            Err(_) => {
                proof {
                    assert(false);
                }
                return false;
            },
        };
        let plen64 = crate::hdu::computed_payload_len(&header);
        let rounded: u64 = if plen64 % 2880 == 0 {
            plen64
        } else if plen64 <= u64::MAX - 2880 {
            (plen64 / 2880 + 1) * 2880
        } else {
            u64::MAX
        };
        let ghost plen = spec_payload_len(header.cards@);
        proof {
            lemma_sat_round_matches(plen, plen64 as nat);
            assert(rounded as nat == sat_round(plen));
        }
        let avail: usize = n - hl;
        let take: usize = if rounded <= avail as u64 {
            rounded as usize
        } else {
            avail
        };
        assert(take as nat == spec_take_len(plen, avail as nat));
        let mut data = copy_range(&self.rest, hl, hl + take);
        proof {
            assert(data@ =~= rest0.subrange(hl as int, hl + take));
        }
        let ghost pad = round_record(take as nat) - take as nat;
        proof {
            crate::header::lemma_round_record(take as nat);
        }
        let rem = take % 2880;
        if rem != 0 {
            assert(take == avail);
            push_repeat(&mut data, 0, 2880 - rem);
        }
        proof {
            assert(data@ =~= rest0.subrange(hl as int, hl + take) + zeros(pad as nat));
        }
        let new_rest = copy_range(&self.rest, hl + take, n);
        proof {
            assert(new_rest@ =~= rest0.skip(hl + take));
        }
        self.rest = new_rest;
        let hdu = Hdu::from_parts(header, data);
        let ghost hdus0 = self.hdus@;
        self.hdus.push(hdu);
        proof {
            assert(self.hdus@ =~= hdus0.push(hdu));
            lemma_hdus_bytes_push(hdus0, hdu);
            crate::hdu::lemma_hdu_bytes(hdu);
            vstd::arithmetic::div_mod::lemma_fundamental_div_mod(hl as int, 2880);
            assert(round_record(hl as nat) == hl);
            assert(crate::bytesutil::spaces(0) =~= Seq::<u8>::empty());
            assert(hdu.spec_header().spec_bytes() =~= rest0.take(hl as int));
            assert(round_record(hdu.spec_data().len()) == hdu.spec_data().len()) by {
                crate::header::lemma_round_record(take as nat);
            }
            assert(hdu.spec_bytes() =~= rest0.take(hl as int) + (rest0.subrange(
                hl as int,
                hl + take,
            ) + zeros(pad as nat)));
            if pad == 0 {
                assert(zeros(0) =~= Seq::<u8>::empty());
                assert(hdus_bytes(self.hdus@) + self.rest@ =~= hdus_bytes(hdus0) + rest0
                    + zeros(pad as nat));
            } else {
                assert(take == rest0.len() - hl);
                assert(rest0.skip(hl + take) =~= Seq::<u8>::empty());
                assert(hdus_bytes(self.hdus@) + self.rest@ =~= hdus_bytes(hdus0) + rest0
                    + zeros(pad as nat));
            }
        }
        true
    }

    /// Finds the end of the header at the head of the unread tail, by
    /// reading successive records until one passes the terminator scan.
    fn find_header_boundary(&self) -> (r: Option<usize>)
        ensures
            match r {
                Some(hl) => {
                    &&& find_header_end(self.spec_rest(), 0) == Some(hl as int)
                    &&& 2880 <= hl <= self.spec_rest().len()
                    &&& hl % 2880 == 0
                },
                None => find_header_end(self.spec_rest(), 0) is None,
            },
    {
        let n = self.rest.len();
        let mut start: usize = 0;
        loop
            invariant
                start <= n == self.rest@.len(),
                start % 2880 == 0,
                find_header_end(self.rest@, 0) == find_header_end(self.rest@, start as int),
            decreases n - start,
        {
            if n < 2880 || start > n - 2880 {
                assert(start + 2880 > self.rest@.len());
                return None;
            }
            if self.scan_record(start) {
                return Some(start + 2880);
            }
            start = start + 2880;
        }
    }

    /// Scans the record at `start` backward for the terminator card.
    fn scan_record(&self, start: usize) -> (r: bool)
        requires
            start + 2880 <= self.rest@.len(),
        ensures
            r == scan_back(self.rest@.subrange(start as int, start + 2880), 1),
    {
        let ghost block = self.rest@.subrange(start as int, start + 2880);
        let n = self.rest.len();
        let endk = crate::keyword::end_keyword();
        let blankk = crate::keyword::blank_keyword();
        let mut c: usize = 1;
        loop
            invariant
                1 <= c <= 37,
                start + 2880 <= n == self.rest@.len(),
                endk@ == spec_end_keyword(),
                blankk@ == spec_blank_keyword(),
                block == self.rest@.subrange(start as int, start + 2880),
                scan_back(block, 1) == scan_back(block, c as int),
            decreases 37 - c,
        {
            if c > 36 {
                return false;
            }
            let card_index = start + 2880 - 80 * c;
            proof {
                assert(block.subrange(2880 - 80 * (c as int), 2880 - 80 * (c as int) + 8)
                    =~= self.rest@.subrange(card_index as int, card_index + 8));
            }
            if crate::bytesutil::range_matches(&self.rest, card_index, &endk) {
                return true;
            }
            if !crate::bytesutil::range_matches(&self.rest, card_index, &blankk) {
                return false;
            }
            c += 1;
        }
    }
}

/// The saturated rounding is monotone enough to agree with the
/// computed, saturated payload length.
proof fn lemma_sat_round_matches(plen: nat, plen64: nat)
    requires
        plen <= 0xFFFF_FFFF_FFFF_FFFF ==> plen64 == plen,
        plen > 0xFFFF_FFFF_FFFF_FFFF ==> plen64 == 0xFFFF_FFFF_FFFF_FFFF,
    ensures
        sat_round(plen) == (if plen64 % 2880 == 0 {
            plen64
        } else if plen64 <= 0xFFFF_FFFF_FFFF_FFFF - 2880 {
            (plen64 / 2880 + 1) * 2880
        } else {
            0xFFFF_FFFF_FFFF_FFFF
        }),
{
    if plen > 0xFFFF_FFFF_FFFF_FFFF {
        assert(plen64 == 0xFFFF_FFFF_FFFF_FFFF);
        assert(0xFFFF_FFFF_FFFF_FFFFnat % 2880 != 0) by {
            vstd::arithmetic::div_mod::lemma_fundamental_div_mod_converse(
                0xFFFF_FFFF_FFFF_FFFF,
                2880,
                6405119470038038,
                2175,
            );
        }
    }
}

/// Appending an HDU appends its bytes.
proof fn lemma_hdus_bytes_push(hdus: Seq<Hdu>, h: Hdu)
    ensures
        hdus_bytes(hdus.push(h)) == hdus_bytes(hdus) + h.spec_bytes(),
{
    assert(hdus.push(h).drop_last() =~= hdus);
    assert(hdus.push(h).last() == h);
}

/// Concatenated HDU runs serialize to concatenated bytes.
pub proof fn lemma_hdus_bytes_concat(a: Seq<Hdu>, b: Seq<Hdu>)
    ensures
        hdus_bytes(a + b) == hdus_bytes(a) + hdus_bytes(b),
    decreases b.len(),
{
    if b.len() == 0 {
        assert(a + b =~= a);
        assert(hdus_bytes(a) + hdus_bytes(b) =~= hdus_bytes(a));
    } else {
        lemma_hdus_bytes_concat(a, b.drop_last());
        assert((a + b).drop_last() =~= a + b.drop_last());
        assert((a + b).last() == b.last());
        assert(hdus_bytes(a) + (hdus_bytes(b.drop_last()) + b.last().spec_bytes()) =~= (
        hdus_bytes(a) + hdus_bytes(b.drop_last())) + b.last().spec_bytes());
    }
}

/// Equal sequences with a common prefix have equal suffixes.
proof fn lemma_seq_cancel_prefix(a: Seq<u8>, x: Seq<u8>, y: Seq<u8>)
    requires
        a + x == a + y,
    ensures
        x == y,
{
    assert(x =~= (a + x).skip(a.len() as int));
    assert(y =~= (a + y).skip(a.len() as int));
}


/// True when `post` extends `pre` only by realizing HDUs from the
/// unread tail: the realized prefix is untouched and the serialized
/// bytes change at most by the zero fill of a payload the source cut
/// short.
pub open spec fn realized_from(pre: HduList, post: HduList) -> bool {
    &&& post.wf()
    &&& post.spec_hdus().len() >= pre.spec_hdus().len()
    &&& (forall|j: int|
        0 <= j < pre.spec_hdus().len() ==> post.spec_hdus()[j] == pre.spec_hdus()[j])
    &&& (forall|j: int|
        pre.spec_hdus().len() <= j < post.spec_hdus().len() ==> (#[trigger] post.spec_hdus()[j]).spec_header().cards@.len() >= 36)
    &&& post.spec_rest().len() <= pre.spec_rest().len()
    &&& exists|pad: nat|
        {
            &&& pad < 2880
            &&& post.spec_bytes() == pre.spec_bytes() + #[trigger] zeros(pad)
            &&& hdus_bytes(post.spec_hdus().skip(pre.spec_hdus().len() as int))
                + post.spec_rest() == pre.spec_rest() + zeros(pad)
            &&& (pad != 0 ==> post.spec_rest().len() == 0)
        }
}

/// Every realized HDU occupies at least one whole record.
pub proof fn lemma_hdu_min_bytes(h: Hdu)
    requires
        h.wf(),
        h.spec_header().cards@.len() >= 36,
    ensures
        h.spec_bytes().len() >= 2880,
{
    crate::hdu::lemma_hdu_wf(h);
    crate::hdu::lemma_hdu_bytes(h);
    crate::header::lemma_cards_bytes_len(h.spec_header().cards@);
    crate::header::lemma_round_record((80 * h.spec_header().cards@.len()) as nat);
}

/// The list's structural invariant is that of its realized HDUs.
pub proof fn lemma_list_wf(l: HduList)
    ensures
        l.wf() == hdus_wf(l.spec_hdus()),
{
}

/// True when the HDU's extension name equals `name` under
/// ASCII-case-insensitive comparison of their byte runs.
pub open spec fn hdu_name_matches(cards: Seq<crate::header::FitsHeaderCard>, name: Seq<char>) -> bool {
    crate::hdu_types::fold_lower(
        crate::value::ascii_u8s(crate::hdu::spec_hdu_name(cards)),
    ) == crate::hdu_types::fold_lower(vstd::utf8::encode_utf8(name))
}

/// True when the first realized HDU carries a valid logical in its
/// `SIMPLE` card.
pub open spec fn spec_header_valid(l: HduList) -> bool {
    if l.spec_hdus().len() == 0 {
        false
    } else {
        crate::hdu::spec_bool_of(
            l.spec_hdus()[0].spec_header().cards@,
            crate::keyword::spec_simple_keyword(),
        )
    }
}

impl HduList {
    /// Retrieves the HDU at the given index, or None if an HDU doesn't exist at the index.
    /// All HDUs up to the index are realized first, in order.
    pub fn get_by_index(&mut self, index: usize) -> (r: Option<&mut Hdu>)
        requires
            old(self).wf(),
        ensures
            match r {
                Some(h) => exists|mid: HduList|
                    {
                        &&& #[trigger] realized_from(*old(self), mid)
                        &&& index < mid.spec_hdus().len()
                        &&& mid.spec_hdus().len() == (if old(self).spec_hdus().len() > index {
                            old(self).spec_hdus().len() as int
                        } else {
                            index + 1
                        })
                        &&& *h == mid.spec_hdus()[index as int]
                        &&& final(self).spec_hdus() == mid.spec_hdus().update(
                            index as int,
                            *final(h),
                        )
                        &&& final(self).spec_rest() == mid.spec_rest()
                    },
                None => {
                    &&& realized_from(*old(self), *final(self))
                    &&& final(self).spec_hdus().len() <= index
                    &&& find_header_end(final(self).spec_rest(), 0) is None
                },
            },
    {
        proof {
            lemma_realized_refl(*old(self));
        }
        while self.hdus.len() <= index
            invariant
                realized_from(*old(self), *self),
                old(self).spec_hdus().len() > index ==> self.hdus@.len() == old(
                    self,
                ).spec_hdus().len(),
                old(self).spec_hdus().len() <= index ==> self.hdus@.len() <= index + 1,
            decreases index + 1 - self.hdus@.len(),
        {
            let ghost before = *self;
            if !self.read_hdu() {
                return None;
            }
            proof {
                lemma_read_step_realizes(before, *self);
                lemma_realized_step(*old(self), before, *self);
            }
        }
        let ghost mid = *self;
        Some(&mut self.hdus[index])
    }

    /// Retrieves the HDU with the given value for the `EXTNAME`
    /// keyword, compared without regard to ASCII case, or None if an
    /// HDU with the given name doesn't exist.
    /// Realized HDUs are checked first, in order; further HDUs are
    /// then realized one at a time until a match appears or the source
    /// is exhausted.
    pub fn get_by_name(&mut self, name: &str) -> (r: Option<&mut Hdu>)
        requires
            old(self).wf(),
        ensures
            match r {
                Some(h) => exists|mid: HduList, i: int|
                    {
                        &&& #[trigger] realized_from(*old(self), mid)
                        &&& 0 <= i < mid.spec_hdus().len()
                        &&& hdu_name_matches(
                            #[trigger] mid.spec_hdus()[i].spec_header().cards@,
                            name@,
                        )
                        &&& (forall|j: int|
                            0 <= j < i ==> !hdu_name_matches(
                                #[trigger] mid.spec_hdus()[j].spec_header().cards@,
                                name@,
                            ))
                        &&& *h == mid.spec_hdus()[i]
                        &&& final(self).spec_hdus() == mid.spec_hdus().update(i, *final(h))
                        &&& final(self).spec_rest() == mid.spec_rest()
                    },
                None => {
                    &&& realized_from(*old(self), *final(self))
                    &&& find_header_end(final(self).spec_rest(), 0) is None
                    &&& (forall|j: int|
                        0 <= j < final(self).spec_hdus().len() ==> !hdu_name_matches(
                            #[trigger] final(self).spec_hdus()[j].spec_header().cards@,
                            name@,
                        ))
                },
            },
    {
        let nameb = vstd::slice::slice_to_vec(name.as_bytes());
        proof {
            lemma_realized_refl(*old(self));
        }
        let mut i: usize = 0;
        loop
            invariant
                realized_from(*old(self), *self),
                i <= self.hdus@.len(),
                nameb@ == vstd::utf8::encode_utf8(name@),
                forall|j: int|
                    0 <= j < i ==> !hdu_name_matches(
                        #[trigger] self.hdus@[j].spec_header().cards@,
                        name@,
                    ),
            decreases self.rest@.len(), self.hdus@.len() - i,
        {
            if i < self.hdus.len() {
                proof {
                    crate::hdu::lemma_hdu_wf(self.hdus@[i as int]);
                    crate::hdu::lemma_hdu_name_ascii(self.hdus@[i as int]);
                }
                let hname = self.hdus[i].get_name();
                let hb = crate::value::string_to_ascii_bytes(&hname);
                if crate::hdu_types::eq_fold(&hb, &nameb) {
                    let ghost mid = *self;
                    let ghost gi = i as int;
                    return Some(&mut self.hdus[i]);
                }
                i += 1;
            } else {
                let ghost before = *self;
                if !self.read_hdu() {
                    return None;
                }
                proof {
                    lemma_read_step_realizes(before, *self);
                    lemma_realized_step(*old(self), before, *self);
                    lemma_find_header_end_bounds(before.spec_rest(), 0);
                }
            }
        }
    }

    /// Returns a mutable pointer to the first HDU, or `None` if the
    /// list is empty and nothing can be realized.
    pub fn first_mut(&mut self) -> (r: Option<&mut Hdu>)
        requires
            old(self).wf(),
        ensures
            match r {
                Some(h) => exists|mid: HduList|
                    {
                        &&& #[trigger] realized_from(*old(self), mid)
                        &&& 0 < mid.spec_hdus().len()
                        &&& mid.spec_hdus().len() == (if old(self).spec_hdus().len() > 0 {
                            old(self).spec_hdus().len() as int
                        } else {
                            1
                        })
                        &&& *h == mid.spec_hdus()[0]
                        &&& final(self).spec_hdus() == mid.spec_hdus().update(0, *final(h))
                        &&& final(self).spec_rest() == mid.spec_rest()
                    },
                None => {
                    &&& realized_from(*old(self), *final(self))
                    &&& final(self).spec_hdus().len() == 0
                    &&& find_header_end(final(self).spec_rest(), 0) is None
                },
            },
    {
        self.get_by_index(0)
    }

    /// Realizes every remaining HDU, then hands the realized list out
    /// for iteration or mutation.
    pub fn iter_mut(&mut self) -> (r: &mut Vec<Hdu>)
        requires
            old(self).wf(),
        ensures
            exists|mid: HduList|
                {
                    &&& #[trigger] realized_from(*old(self), mid)
                    &&& find_header_end(mid.spec_rest(), 0) is None
                    &&& (*r)@ == mid.spec_hdus()
                    &&& final(self).spec_hdus() == final(r)@
                    &&& final(self).spec_rest() == mid.spec_rest()
                },
    {
        self.realize_all();
        let ghost mid = *self;
        &mut self.hdus
    }

    /// Realizes every HDU the unread tail still holds.
    fn realize_all(&mut self)
        requires
            old(self).wf(),
        ensures
            realized_from(*old(self), *final(self)),
            find_header_end(final(self).spec_rest(), 0) is None,
    {
        proof {
            lemma_realized_refl(*old(self));
        }
        loop
            invariant
                realized_from(*old(self), *self),
            decreases self.rest@.len(),
        {
            let ghost before = *self;
            if !self.read_hdu() {
                return;
            }
            proof {
                lemma_read_step_realizes(before, *self);
                lemma_realized_step(*old(self), before, *self);
                lemma_find_header_end_bounds(before.spec_rest(), 0);
            }
        }
    }

    /// Realizes all HDUs up to `index`, then inserts the given HDU
    /// there. Fails when fewer than `index` HDUs can be realized.
    pub fn insert(&mut self, index: usize, hdu: Hdu) -> (r: Result<(), FitsHeaderError>)
        requires
            old(self).wf(),
            hdu.wf(),
        ensures
            final(self).wf(),
            match r {
                Ok(_) => exists|mid: HduList|
                    {
                        &&& #[trigger] realized_from(*old(self), mid)
                        &&& index <= mid.spec_hdus().len()
                        &&& final(self).spec_hdus() == mid.spec_hdus().insert(
                            index as int,
                            hdu,
                        )
                        &&& final(self).spec_rest() == mid.spec_rest()
                    },
                Err(_) => {
                    &&& realized_from(*old(self), *final(self))
                    &&& final(self).spec_hdus().len() < index
                    &&& find_header_end(final(self).spec_rest(), 0) is None
                },
            },
    {
        proof {
            lemma_realized_refl(*old(self));
        }
        while self.hdus.len() < index
            invariant
                realized_from(*old(self), *self),
            decreases index - self.hdus@.len(),
        {
            let ghost before = *self;
            if !self.read_hdu() {
                return Err(FitsHeaderError::InvalidLength {
                    expected: index,
                    found: self.hdus.len(),
                    intent: String::from_str("HDU index"),
                });
            }
            proof {
                lemma_read_step_realizes(before, *self);
                lemma_realized_step(*old(self), before, *self);
            }
        }
        let ghost mid = *self;
        self.hdus.insert(index, hdu);
        proof {
            assert forall|i: int| 0 <= i < self.hdus@.len() implies (
            #[trigger] self.hdus@[i]).wf() by {
                if i < index {
                    assert(self.hdus@[i] == mid.spec_hdus()[i]);
                } else if i > index {
                    assert(self.hdus@[i] == mid.spec_hdus()[i - 1]);
                }
            }
        }
        Ok(())
    }

    /// Realizes every remaining HDU, then appends the given HDU.
    pub fn push(&mut self, hdu: Hdu)
        requires
            old(self).wf(),
            hdu.wf(),
        ensures
            final(self).wf(),
            exists|mid: HduList|
                {
                    &&& #[trigger] realized_from(*old(self), mid)
                    &&& find_header_end(mid.spec_rest(), 0) is None
                    &&& final(self).spec_hdus() == mid.spec_hdus().push(hdu)
                    &&& final(self).spec_rest() == mid.spec_rest()
                },
    {
        self.realize_all();
        let ghost mid = *self;
        self.hdus.push(hdu);
        proof {
            assert forall|i: int| 0 <= i < self.hdus@.len() implies (
            #[trigger] self.hdus@[i]).wf() by {
                if i < mid.spec_hdus().len() {
                    assert(self.hdus@[i] == mid.spec_hdus()[i]);
                }
            }
        }
    }

    /// Validates the existence and format of the SIMPLE header card of
    /// the first HDU.
    pub fn is_header_valid(&mut self) -> (r: Result<bool, FitsHeaderError>)
        requires
            old(self).wf(),
        ensures
            realized_from(*old(self), *final(self)),
            r == Ok::<bool, FitsHeaderError>(spec_header_valid(*final(self))),
    {
        proof {
            lemma_realized_refl(*old(self));
        }
        if self.hdus.len() == 0 {
            let ghost before = *self;
            if !self.read_hdu() {
                return Ok(false);
            }
            proof {
                lemma_read_step_realizes(before, *self);
                lemma_realized_step(*old(self), before, *self);
            }
        }
        let sk = crate::keyword::FitsHeaderKeyword::from_raw(crate::keyword::simple_keyword());
        proof {
            crate::hdu::lemma_hdu_wf(self.hdus@[0]);
        }
        let b = crate::hdu::peek_bool_of(self.hdus[0].header_ref(), &sk);
        Ok(b)
    }
}

impl Default for HduList {
    /// An empty container.
    fn default() -> (r: HduList)
        ensures
            r.wf(),
            r.spec_hdus().len() == 0,
            r.spec_rest().len() == 0,
    {
        HduList { hdus: Vec::new(), rest: Vec::new() }
    }
}

/// One successful read is a realization step: it appends one HDU of
/// at least a whole header record and consumes from the unread tail.
proof fn lemma_read_step_realizes(pre: HduList, post: HduList)
    requires
        post.wf(),
        match find_header_end(pre.spec_rest(), 0) {
            None => false,
            Some(hl) => {
                let rest0 = pre.spec_rest();
                let h = post.spec_hdus().last();
                let plen = spec_payload_len(h.spec_header().cards@);
                let take = spec_take_len(plen, (rest0.len() - hl) as nat);
                let pad = round_record(take) - take;
                &&& post.spec_hdus() == pre.spec_hdus().push(h)
                &&& h.spec_header().cards@.len() == hl / 80
                &&& post.spec_rest() == rest0.skip(hl + take)
                &&& post.spec_bytes() == pre.spec_bytes() + zeros(pad as nat)
                &&& (pad != 0 ==> post.spec_rest().len() == 0)
            },
        },
    ensures
        realized_from(pre, post),
{
    lemma_find_header_end_bounds(pre.spec_rest(), 0);
    let hl = find_header_end(pre.spec_rest(), 0).unwrap();
    assert(hl / 80 >= 36);
    assert(forall|j: int|
        0 <= j < pre.spec_hdus().len() ==> post.spec_hdus()[j] == (
        #[trigger] pre.spec_hdus()[j]));
    assert(post.spec_hdus().last() == post.spec_hdus()[post.spec_hdus().len() - 1]);
    let rest0 = pre.spec_rest();
    let h = post.spec_hdus().last();
    let plen = spec_payload_len(h.spec_header().cards@);
    let take = spec_take_len(plen, (rest0.len() - hl) as nat);
    let pad = round_record(take) - take;
    crate::header::lemma_round_record(take);
    assert(pad < 2880);
    lemma_hdus_bytes_push(pre.spec_hdus(), h);
    assert(post.spec_hdus().skip(pre.spec_hdus().len() as int) =~= seq![h]);
    let single = seq![h];
    assert(single.len() == 1);
    assert(single.drop_last() =~= Seq::<Hdu>::empty());
    assert(hdus_bytes(single.drop_last()) == hdus_bytes(Seq::<Hdu>::empty()));
    assert(hdus_bytes(Seq::<Hdu>::empty()) == Seq::<u8>::empty());
    assert(single.last() == h);
    assert(hdus_bytes(single) == Seq::<u8>::empty() + h.spec_bytes());
    assert(Seq::<u8>::empty() + h.spec_bytes() =~= h.spec_bytes());
    let a = hdus_bytes(pre.spec_hdus());
    assert(a + (h.spec_bytes() + post.spec_rest()) =~= (a + h.spec_bytes())
        + post.spec_rest());
    assert(a + (rest0 + zeros(pad as nat)) =~= (a + rest0) + zeros(pad as nat));
    assert(a + (h.spec_bytes() + post.spec_rest()) == a + (rest0 + zeros(pad as nat)));
    lemma_seq_cancel_prefix(a, h.spec_bytes() + post.spec_rest(), rest0 + zeros(pad as nat));
    assert(realized_from(pre, post)) by {
        assert({
            &&& (pad as nat) < 2880
            &&& post.spec_bytes() == pre.spec_bytes() + zeros(pad as nat)
            &&& hdus_bytes(post.spec_hdus().skip(pre.spec_hdus().len() as int))
                + post.spec_rest() == pre.spec_rest() + zeros(pad as nat)
            &&& (pad as nat != 0 ==> post.spec_rest().len() == 0)
        });
    }
}

/// Law: an exhausted source realizes nothing. When the unread tail is
/// empty, any realization step leaves the container exactly as it was.
pub proof fn lemma_no_realization_from_empty(pre: HduList, post: HduList)
    requires
        realized_from(pre, post),
        pre.spec_rest().len() == 0,
    ensures
        post.spec_hdus() == pre.spec_hdus(),
        post.spec_rest().len() == 0,
{
    let pad = choose|pad: nat|
        {
            &&& pad < 2880
            &&& post.spec_bytes() == pre.spec_bytes() + #[trigger] zeros(pad)
            &&& hdus_bytes(post.spec_hdus().skip(pre.spec_hdus().len() as int))
                + post.spec_rest() == pre.spec_rest() + zeros(pad)
            &&& (pad != 0 ==> post.spec_rest().len() == 0)
        };
    let suffix = post.spec_hdus().skip(pre.spec_hdus().len() as int);
    if suffix.len() > 0 {
        let last = suffix.last();
        assert(last == post.spec_hdus()[post.spec_hdus().len() - 1]);
        assert(last.spec_header().cards@.len() >= 36);
        assert(last.wf());
        lemma_hdu_min_bytes(last);
        assert(hdus_bytes(suffix) == hdus_bytes(suffix.drop_last()) + last.spec_bytes());
        assert((hdus_bytes(suffix) + post.spec_rest()).len() >= 2880);
        assert((pre.spec_rest() + zeros(pad)).len() < 2880);
    }
    assert(suffix.len() == 0);
    assert(post.spec_hdus() =~= pre.spec_hdus());
    assert(hdus_bytes(suffix) + post.spec_rest() =~= post.spec_rest());
}

/// Nothing realized yet: realization is reflexive.
proof fn lemma_realized_refl(l: HduList)
    requires
        l.wf(),
    ensures
        realized_from(l, l),
{
    assert(l.spec_bytes() =~= l.spec_bytes() + zeros(0));
    assert(l.spec_hdus().skip(l.spec_hdus().len() as int) =~= Seq::<Hdu>::empty());
    assert(hdus_bytes(Seq::<Hdu>::empty()) + l.spec_rest() =~= l.spec_rest() + zeros(0));
}

/// A found header boundary lies at least one record in, within the
/// source.
proof fn lemma_find_header_end_bounds(b: Seq<u8>, s: int)
    ensures
        match find_header_end(b, s) {
            Some(e) => s + 2880 <= e <= b.len(),
            None => true,
        },
    decreases b.len() - s,
{
    if s >= 0 && s + 2880 <= b.len() {
        if !scan_back(b.subrange(s, s + 2880), 1) {
            lemma_find_header_end_bounds(b, s + 2880);
        }
    }
}

/// Realization steps compose.
proof fn lemma_realized_step(base: HduList, mid: HduList, post: HduList)
    requires
        realized_from(base, mid),
        realized_from(mid, post),
    ensures
        realized_from(base, post),
{
    let pad1 = choose|pad: nat|
        {
            &&& pad < 2880
            &&& mid.spec_bytes() == base.spec_bytes() + #[trigger] zeros(pad)
            &&& hdus_bytes(mid.spec_hdus().skip(base.spec_hdus().len() as int))
                + mid.spec_rest() == base.spec_rest() + zeros(pad)
            &&& (pad != 0 ==> mid.spec_rest().len() == 0)
        };
    let pad2 = choose|pad: nat|
        {
            &&& pad < 2880
            &&& post.spec_bytes() == mid.spec_bytes() + #[trigger] zeros(pad)
            &&& hdus_bytes(post.spec_hdus().skip(mid.spec_hdus().len() as int))
                + post.spec_rest() == mid.spec_rest() + zeros(pad)
            &&& (pad != 0 ==> post.spec_rest().len() == 0)
        };
    let s1 = mid.spec_hdus().skip(base.spec_hdus().len() as int);
    let s2 = post.spec_hdus().skip(mid.spec_hdus().len() as int);
    let sp = post.spec_hdus().skip(base.spec_hdus().len() as int);
    assert(sp =~= s1 + s2);
    lemma_hdus_bytes_concat(s1, s2);
    // once a padded (truncated) payload was realized, the tail is
    // exhausted and no further step can pad again
    if pad1 != 0 {
        assert(mid.spec_rest().len() == 0);
        if s2.len() > 0 {
            let last = s2.last();
            assert(last == post.spec_hdus()[post.spec_hdus().len() - 1]);
            assert(last.spec_header().cards@.len() >= 36);
            assert(last.wf());
            lemma_hdu_min_bytes(last);
            assert(hdus_bytes(s2) == hdus_bytes(s2.drop_last()) + last.spec_bytes());
            assert((hdus_bytes(s2) + post.spec_rest()).len() >= 2880);
            assert((mid.spec_rest() + zeros(pad2)).len() < 2880);
        }
        assert(s2.len() == 0);
        assert(hdus_bytes(s2) + post.spec_rest() =~= post.spec_rest());
        assert(post.spec_rest().len() == 0) by {
            assert(post.spec_rest().len() <= mid.spec_rest().len());
        }
        assert(pad2 == 0) by {
            assert((mid.spec_rest() + zeros(pad2)).len() == pad2);
        }
    }
    let pad = pad1 + pad2;
    assert(pad < 2880);
    assert(post.spec_bytes() =~= base.spec_bytes() + zeros(pad));
    assert(hdus_bytes(s1) + (hdus_bytes(s2) + post.spec_rest()) =~= (hdus_bytes(s1)
        + hdus_bytes(s2)) + post.spec_rest());
    assert(hdus_bytes(s1) + (mid.spec_rest() + zeros(pad2)) =~= (hdus_bytes(s1)
        + mid.spec_rest()) + zeros(pad2));
    assert((base.spec_rest() + zeros(pad1)) + zeros(pad2) =~= base.spec_rest() + zeros(pad));
    assert(hdus_bytes(sp) + post.spec_rest() == base.spec_rest() + zeros(pad));
    assert(pad != 0 ==> post.spec_rest().len() == 0) by {
        if pad != 0 {
            if pad2 != 0 {
            } else {
                assert(pad1 != 0);
            }
        }
    }
    assert(realized_from(base, post)) by {
        assert({
            &&& pad < 2880
            &&& post.spec_bytes() == base.spec_bytes() + zeros(pad)
            &&& hdus_bytes(post.spec_hdus().skip(base.spec_hdus().len() as int))
                + post.spec_rest() == base.spec_rest() + zeros(pad)
            &&& (pad != 0 ==> post.spec_rest().len() == 0)
        });
    }
}

} // verus!
