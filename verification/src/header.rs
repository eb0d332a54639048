//! The header of an HDU: an ordered run of 80-byte cards, serialized
//! in 2880-byte records.

use vstd::prelude::*;
use vstd::string::StringExecFns;

use crate::bytesutil::{
    copy_range, push_all, push_repeat, round_record, spaces, FITS_RECORD_LEN, HEADER_CARD_LEN,
    HEADER_KEYWORD_LEN, SPACE,
};
use crate::container::FitsHeaderValueContainer;
use crate::error::FitsHeaderError;
use crate::keyword::{spec_end_keyword, FitsHeaderKeyword};
use crate::value::FitsHeaderValue;

verus! {

/// A card within an HDU header section: an 8-byte keyword and the
/// 72-byte value and comment region.
#[derive(Debug)]
pub struct FitsHeaderCard {
    keyword: FitsHeaderKeyword,
    value: FitsHeaderValueContainer,
}

impl FitsHeaderCard {
    /// Structural invariant of the card.
    pub closed spec fn wf(&self) -> bool {
        self.value.wf()
    }

    /// The keyword bytes.
    pub closed spec fn spec_keyword(&self) -> Seq<u8> {
        self.keyword@
    }

    /// The value and comment container.
    pub closed spec fn spec_container(&self) -> FitsHeaderValueContainer {
        self.value
    }

    /// The 80 bytes the card serializes to.
    pub closed spec fn spec_bytes(&self) -> Seq<u8> {
        self.keyword@ + self.value.spec_bytes()
    }

    /// Builds a card from its 80 raw bytes; decoding of the value
    /// region is deferred.
    pub fn from_bytes(raw: &Vec<u8>) -> (r: FitsHeaderCard)
        requires
            raw@.len() == HEADER_CARD_LEN,
        ensures
            r.wf(),
            r.spec_keyword() == raw@.subrange(0, HEADER_KEYWORD_LEN as int),
            r.spec_bytes() == raw@,
            r.spec_container().spec_value() is None,
            r.spec_container().spec_comment() is None,
            r.spec_container().spec_raw() == raw@.subrange(
                HEADER_KEYWORD_LEN as int,
                HEADER_CARD_LEN as int,
            ),
    {
        let mut kw: [u8; 8] = [0u8, 0, 0, 0, 0, 0, 0, 0];
        let mut i: usize = 0;
        while i < 8
            invariant
                i <= 8,
                raw@.len() == 80,
                forall|j: int| 0 <= j < i ==> kw@[j] == raw@[j],
            decreases 8 - i,
        {
            kw[i] = raw[i];
            i += 1;
        }
        proof {
            assert(kw@ =~= raw@.subrange(0, 8));
        }
        let keyword = FitsHeaderKeyword::from_raw(kw);
        let region = copy_range(raw, 8, 80);
        let value = FitsHeaderValueContainer::from_raw(region);
        let card = FitsHeaderCard { keyword, value };
        proof {
            assert(card.spec_bytes() =~= raw@);
        }
        card
    }

    /// Builds a card from a keyword and a value container.
    pub fn from_parts(keyword: FitsHeaderKeyword, value: FitsHeaderValueContainer) -> (r:
        FitsHeaderCard)
        requires
            value.wf(),
        ensures
            r.wf(),
            r.spec_keyword() == keyword@,
            r.spec_container() == value,
            r.spec_bytes() == keyword@ + value.spec_bytes(),
    {
        FitsHeaderCard { keyword, value }
    }

    /// Gets the keyword of the header card.
    pub fn keyword(&self) -> (r: &FitsHeaderKeyword)
        ensures
            r@ == self.spec_keyword(),
    {
        &self.keyword
    }

    /// Gets the value of the header card.
    /// If the value has not yet been deserialized, the deserialization process is attempted.
    /// If the process succeeds, the deserialized value is cached.
    pub fn get_value<T: FitsHeaderValue>(&mut self) -> (r: Result<T, FitsHeaderError>)
        requires
            old(self).wf(),
        ensures
            final(self).wf(),
            final(self).spec_keyword() == old(self).spec_keyword(),
            crate::container::value_read_effect::<T>(
                old(self).spec_container(),
                final(self).spec_container(),
                r,
            ),
    {
        self.value.get_value()
    }

    /// Reads the value without caching it.
    pub fn peek_value<T: FitsHeaderValue>(&self) -> (r: Result<T, FitsHeaderError>)
        requires
            self.wf(),
        ensures
            crate::container::value_peek_effect::<T>(self.spec_container(), r),
    {
        self.value.peek_value()
    }

    /// Gets the comment section of the header card.
    pub fn get_comment(&mut self) -> (r: Result<String, FitsHeaderError>)
        requires
            old(self).wf(),
        ensures
            final(self).wf(),
            final(self).spec_keyword() == old(self).spec_keyword(),
            crate::container::comment_read_effect(
                old(self).spec_container(),
                final(self).spec_container(),
                r,
            ),
    {
        self.value.get_comment()
    }

    /// Serializes the card to its 80 bytes.
    pub fn to_bytes(&self) -> (r: Vec<u8>)
        requires
            self.wf(),
        ensures
            r@ == self.spec_bytes(),
            r@.len() == HEADER_CARD_LEN,
    {
        let mut out: Vec<u8> = Vec::new();
        let kw = self.keyword.as_raw();
        let mut i: usize = 0;
        while i < 8
            invariant
                i <= 8,
                kw@ == self.keyword@,
                out@ == self.keyword@.take(i as int),
            decreases 8 - i,
        {
            out.push(kw[i]);
            assert(out@ =~= self.keyword@.take(i + 1));
            i += 1;
        }
        proof {
            assert(self.keyword@.take(8) =~= self.keyword@);
        }
        let region = self.value.into_bytes();
        push_all(&mut out, &region);
        out
    }

}

/// The header portion of an HDU.
#[derive(Debug)]
pub struct FitsHeader {
    /// The card images contained in the header.
    pub cards: Vec<FitsHeaderCard>,
}

/// Structural invariant over a run of cards.
pub open spec fn cards_wf(cards: Seq<FitsHeaderCard>) -> bool {
    forall|i: int| 0 <= i < cards.len() ==> (#[trigger] cards[i]).wf()
}

/// The concatenated 80-byte images of a run of cards.
pub open spec fn cards_bytes(cards: Seq<FitsHeaderCard>) -> Seq<u8>
    decreases cards.len(),
{
    if cards.len() == 0 {
        Seq::<u8>::empty()
    } else {
        cards_bytes(cards.drop_last()) + cards.last().spec_bytes()
    }
}

/// The serialized header: the cards, space-padded to the next record
/// boundary.
pub open spec fn header_bytes(cards: Seq<FitsHeaderCard>) -> Seq<u8> {
    let body = cards_bytes(cards);
    body + spaces((round_record(body.len()) - body.len()) as nat)
}

/// First card whose keyword equals `kw`, if any.
pub open spec fn find_card(cards: Seq<FitsHeaderCard>, kw: Seq<u8>) -> Option<int>
    decreases cards.len(),
{
    if cards.len() == 0 {
        None
    } else if cards[0].spec_keyword() == kw {
        Some(0)
    } else {
        match find_card(cards.skip(1), kw) {
            Some(i) => Some(i + 1),
            None => None,
        }
    }
}

/// Where a fresh card is placed: before a trailing terminator card,
/// else at the end.
pub open spec fn insert_pos(cards: Seq<FitsHeaderCard>) -> int {
    if cards.len() > 0 && cards.last().spec_keyword() == spec_end_keyword() {
        cards.len() - 1
    } else {
        cards.len() as int
    }
}

/// A well-formed card has a well-formed value container.
pub proof fn lemma_card_wf(card: FitsHeaderCard)
    requires
        card.wf(),
    ensures
        card.spec_container().wf(),
{
}

/// A card's bytes are its keyword followed by its value and comment
/// region.
pub proof fn lemma_card_bytes_split(card: FitsHeaderCard)
    ensures
        card.spec_bytes() == card.spec_keyword() + card.spec_container().spec_bytes(),
{
}

/// A well-formed card serializes to exactly 80 bytes.
pub proof fn lemma_card_bytes_len(card: FitsHeaderCard)
    requires
        card.wf(),
    ensures
        card.spec_bytes().len() == HEADER_CARD_LEN,
{
    crate::keyword::lemma_keyword_len(card.keyword);
    crate::container::lemma_container_bytes_len(card.value);
}

/// A well-formed run of cards serializes to 80 bytes per card.
pub proof fn lemma_cards_bytes_len(cards: Seq<FitsHeaderCard>)
    requires
        cards_wf(cards),
    ensures
        cards_bytes(cards).len() == HEADER_CARD_LEN * cards.len(),
    decreases cards.len(),
{
    if cards.len() > 0 {
        assert(cards_wf(cards.drop_last())) by {
            assert(forall|i: int|
                0 <= i < cards.len() - 1 ==> cards.drop_last()[i] == (#[trigger] cards[i]));
        }
        lemma_cards_bytes_len(cards.drop_last());
        lemma_card_bytes_len(cards.last());
    }
}

/// Appending a card appends its 80 bytes.
pub proof fn lemma_cards_bytes_push(cards: Seq<FitsHeaderCard>, card: FitsHeaderCard)
    ensures
        cards_bytes(cards.push(card)) == cards_bytes(cards) + card.spec_bytes(),
{
    assert(cards.push(card).drop_last() =~= cards);
    assert(cards.push(card).last() == card);
}

/// Properties of rounding up to a record boundary.
pub proof fn lemma_round_record(n: nat)
    ensures
        n <= round_record(n),
        round_record(n) < n + FITS_RECORD_LEN,
        round_record(n) % (FITS_RECORD_LEN as nat) == 0,
{
    if n % 2880 == 0 {
    } else {
        let k = n / 2880;
        vstd::arithmetic::div_mod::lemma_fundamental_div_mod(n as int, 2880);
        assert(n == 2880 * k + n % 2880);
        vstd::arithmetic::div_mod::lemma_mod_multiples_basic((k + 1) as int, 2880);
        assert(round_record(n) == (k + 1) * 2880);
        assert((k + 1) * 2880 == 2880 * k + 2880) by (nonlinear_arith);
    }
}

pub proof fn lemma_find_card_at(cards: Seq<FitsHeaderCard>, kw: Seq<u8>, i: int)
    requires
        0 <= i < cards.len(),
        cards[i].spec_keyword() == kw,
        forall|j: int| 0 <= j < i ==> (#[trigger] cards[j]).spec_keyword() != kw,
    ensures
        find_card(cards, kw) == Some(i),
    decreases i,
{
    if i > 0 {
        lemma_find_card_at(cards.skip(1), kw, i - 1);
    }
}

/// A found card index lies in range.
pub proof fn lemma_find_card_range(cards: Seq<FitsHeaderCard>, kw: Seq<u8>)
    ensures
        match find_card(cards, kw) {
            Some(i) => 0 <= i < cards.len() && cards[i].spec_keyword() == kw,
            None => true,
        },
    decreases cards.len(),
{
    if cards.len() > 0 && cards[0].spec_keyword() != kw {
        lemma_find_card_range(cards.skip(1), kw);
    }
}

pub proof fn lemma_find_card_none(cards: Seq<FitsHeaderCard>, kw: Seq<u8>)
    requires
        forall|j: int| 0 <= j < cards.len() ==> (#[trigger] cards[j]).spec_keyword() != kw,
    ensures
        find_card(cards, kw) is None,
    decreases cards.len(),
{
    if cards.len() > 0 {
        lemma_find_card_none(cards.skip(1), kw);
    }
}

impl FitsHeader {
    /// Structural invariant of the header.
    pub open spec fn wf(&self) -> bool {
        cards_wf(self.cards@)
    }

    /// The serialized bytes of the header.
    pub open spec fn spec_bytes(&self) -> Seq<u8> {
        header_bytes(self.cards@)
    }

    /// Constructs an empty header.
    pub fn new() -> (r: FitsHeader)
        ensures
            r.wf(),
            r.cards@.len() == 0,
    {
        FitsHeader { cards: Vec::new() }
    }

    /// Constructs a FitsHeader from the given bytes, which must be an
    /// exact run of 80-byte cards; decoding of each card's value region
    /// is deferred.
    pub fn from_bytes(raw: Vec<u8>) -> (r: Result<FitsHeader, FitsHeaderError>)
        ensures
            match r {
                Ok(h) => {
                    &&& raw@.len() % 80 == 0
                    &&& h.wf()
                    &&& h.cards@.len() == raw@.len() / 80
                    &&& (forall|i: int|
                        0 <= i < h.cards@.len() ==> fresh_card_at(#[trigger] h.cards@[i], raw@, i))
                    &&& cards_bytes(h.cards@) == raw@
                },
                Err(_) => raw@.len() % 80 != 0,
            },
    {
        let raw_len = raw.len();
        if raw_len % 80 != 0 {
            let base = raw_len - raw_len % 80;
            let expected = if base <= usize::MAX - 80 {
                base + 80
            } else {
                base
            };
            return Err(FitsHeaderError::InvalidLength {
                expected,
                found: raw_len,
                intent: String::from_str("FITS header"),
            });
        }
        let num_cards = raw_len / 80;
        let mut cards: Vec<FitsHeaderCard> = Vec::new();
        let mut i: usize = 0;
        proof {
            assert(cards_bytes(cards@) =~= raw@.take(0));
        }
        while i < num_cards
            invariant
                i <= num_cards,
                raw@.len() == raw_len == 80 * num_cards,
                cards@.len() == i,
                cards_wf(cards@),
                forall|j: int| 0 <= j < i ==> fresh_card_at(#[trigger] cards@[j], raw@, j),
                cards_bytes(cards@) == raw@.take(80 * i),
            decreases num_cards - i,
        {
            let chunk = copy_range(&raw, i * 80, i * 80 + 80);
            let card = FitsHeaderCard::from_bytes(&chunk);
            proof {
                lemma_cards_bytes_push(cards@, card);
            }
            cards.push(card);
            proof {
                assert(chunk@.subrange(0, 8) =~= raw@.subrange(80 * i, 80 * i + 8));
                assert(chunk@.subrange(8, 80) =~= raw@.subrange(80 * i + 8, 80 * i + 80));
                assert(fresh_card_at(card, raw@, i as int));
                assert(cards_bytes(cards@) =~= raw@.take(80 * (i + 1)));
            }
            i += 1;
        }
        proof {
            assert(raw@.take(80 * num_cards as int) =~= raw@);
        }
        Ok(FitsHeader { cards })
    }

    /// Serializes the header into bytes: the cards in order, padded
    /// with spaces to the next 2880-byte record boundary.
    pub fn to_bytes(&self) -> (r: Vec<u8>)
        requires
            self.wf(),
        ensures
            r@ == self.spec_bytes(),
            r@.len() % 2880 == 0,
    {
        let n = self.cards.len();
        let mut out: Vec<u8> = Vec::new();
        let mut i: usize = 0;
        proof {
            assert(cards_bytes(self.cards@.take(0)) =~= Seq::<u8>::empty());
            lemma_cards_bytes_len(self.cards@);
        }
        while i < n
            invariant
                i <= n == self.cards@.len(),
                cards_wf(self.cards@),
                out@ == cards_bytes(self.cards@.take(i as int)),
                out@.len() == 80 * i,
            decreases n - i,
        {
            let chunk = self.cards[i].to_bytes();
            push_all(&mut out, &chunk);
            proof {
                assert(self.cards@.take(i + 1).drop_last() =~= self.cards@.take(i as int));
                assert(self.cards@.take(i + 1).last() == self.cards@[i as int]);
                assert(cards_wf(self.cards@.take(i as int))) by {
                    assert(forall|j: int|
                        0 <= j < i ==> self.cards@.take(i as int)[j] == (
                        #[trigger] self.cards@[j]));
                }
                lemma_cards_bytes_len(self.cards@.take(i as int));
            }
            i += 1;
        }
        proof {
            assert(self.cards@.take(n as int) =~= self.cards@);
        }
        let total = out.len();
        let rem = total % 2880;
        if rem != 0 {
            push_repeat(&mut out, SPACE, 2880 - rem);
        }
        proof {
            lemma_round_record((80 * n) as nat);
            assert(out@ =~= self.spec_bytes());
        }
        out
    }

    /// First index holding a card with the given keyword.
    pub fn card_index(&self, keyword: &FitsHeaderKeyword) -> (r: Option<usize>)
        ensures
            match r {
                Some(i) => find_card(self.cards@, keyword@) == Some(i as int) && i
                    < self.cards@.len(),
                None => find_card(self.cards@, keyword@) is None,
            },
    {
        let n = self.cards.len();
        let mut i: usize = 0;
        while i < n
            invariant
                i <= n == self.cards@.len(),
                forall|j: int| 0 <= j < i ==> (#[trigger] self.cards@[j]).spec_keyword() != keyword@,
            decreases n - i,
        {
            if self.cards[i].keyword().matches_keyword(keyword) {
                proof {
                    lemma_find_card_at(self.cards@, keyword@, i as int);
                }
                return Some(i);
            }
            i += 1;
        }
        proof {
            lemma_find_card_none(self.cards@, keyword@);
        }
        None
    }

    /// Searches the header cards for a match with the given keyword;
    /// the first match is handed out for reading or mutation.
    pub fn get_card(&mut self, keyword: &FitsHeaderKeyword) -> (r: Option<&mut FitsHeaderCard>)
        ensures
            match find_card(old(self).cards@, keyword@) {
                Some(i) => match r {
                    Some(card) => {
                        &&& *card == old(self).cards@[i]
                        &&& final(self).cards@ == old(self).cards@.update(i, *final(card))
                    },
                    None => false,
                },
                None => r is None && final(self).cards@ == old(self).cards@,
            },
    {
        match self.card_index(keyword) {
            Some(i) => Some(&mut self.cards[i]),
            None => None,
        }
    }
}

/// True when `card` holds the given keyword, wraps the given value,
/// carries the given comment, and has no undecoded remainder.
pub open spec fn placed_card<T: FitsHeaderValue>(
    card: FitsHeaderCard,
    kw: Seq<u8>,
    value: T,
    comment: Option<Seq<char>>,
) -> bool {
    &&& card.spec_keyword() == kw
    &&& (match card.spec_container().spec_value() {
        Some(hv) => T::value_of(value, hv),
        None => false,
    })
    &&& card.spec_container().spec_comment() == comment
    &&& card.spec_container().spec_raw() == Seq::<u8>::empty()
}

impl FitsHeaderCard {
    /// Sets the value of the card, decoding and keeping any comment
    /// still in the raw region first.
    pub fn set_value<T: FitsHeaderValue>(&mut self, value: T) -> (r: Result<(), FitsHeaderError>)
        requires
            old(self).wf(),
        ensures
            final(self).wf(),
            final(self).spec_keyword() == old(self).spec_keyword(),
            crate::container::value_set_effect::<T>(
                old(self).spec_container(),
                final(self).spec_container(),
                value,
                r,
            ),
    {
        self.value.set_value(value)
    }

    /// Sets the comment of the card.
    pub fn set_comment(&mut self, comment: Option<String>) -> (r: Result<(), FitsHeaderError>)
        requires
            old(self).wf(),
        ensures
            final(self).wf(),
            final(self).spec_keyword() == old(self).spec_keyword(),
            crate::container::comment_set_effect(
                old(self).spec_container(),
                final(self).spec_container(),
                match comment {
                    Some(c) => Some(c@),
                    None => None,
                },
                r,
            ),
    {
        self.value.set_comment(comment)
    }
}

impl FitsHeader {
    /// Sets the value and comment of the card with the given keyword.
    /// If a card already exists, the data is overwritten.
    /// If a card does not exist, one is created, before a trailing
    /// terminator card if there is one.
    pub fn set_card<T: FitsHeaderValue>(
        &mut self,
        keyword: FitsHeaderKeyword,
        value: T,
        comment: Option<String>,
    ) -> (r: Result<(), FitsHeaderError>)
        requires
            old(self).wf(),
        ensures
            final(self).wf(),
            match r {
                Ok(_) => {
                    &&& value.encodable()
                    &&& ({
                        let cv = match comment {
                            Some(c) => Some(c@),
                            None => None::<Seq<char>>,
                        };
                        match find_card(old(self).cards@, keyword@) {
                            Some(i) => {
                                &&& final(self).cards@.len() == old(self).cards@.len()
                                &&& placed_card::<T>(final(self).cards@[i], keyword@, value, cv)
                                &&& (forall|j: int|
                                    0 <= j < old(self).cards@.len() && j != i ==> final(self).cards@[j] == old(self).cards@[j])
                            },
                            None => {
                                let pos = insert_pos(old(self).cards@);
                                &&& final(self).cards@.len() == old(self).cards@.len() + 1
                                &&& placed_card::<T>(final(self).cards@[pos], keyword@, value, cv)
                                &&& (forall|j: int|
                                    0 <= j < pos ==> final(self).cards@[j] == old(self).cards@[j])
                                &&& (forall|j: int|
                                    pos <= j < old(self).cards@.len() ==> final(self).cards@[j
                                        + 1] == old(self).cards@[j])
                            },
                        }
                    })
                },
                Err(_) => final(self).cards@ == old(self).cards@ && (!value.encodable() || (
                match comment {
                    Some(c) => !vstd::utf8::is_ascii_chars(c@)
                        || !crate::container::comment_fits_after_value(
                        value.spec_encode(),
                        c@.len() as int,
                    ),
                    None => false,
                })),
            },
    {
        match FitsHeaderValueContainer::new(value, comment) {
            Err(e) => Err(e),
            Ok(container) => {
                let card = FitsHeaderCard::from_parts(keyword, container);
                match self.card_index(&keyword) {
                    Some(i) => {
                        self.cards.set(i, card);
                        proof {
                            assert forall|j: int| 0 <= j < final(self).cards@.len() implies (
                            #[trigger] final(self).cards@[j]).wf() by {
                                if j != i {
                                    assert(final(self).cards@[j] == old(self).cards@[j]);
                                }
                            }
                        }
                        Ok(())
                    },
                    None => {
                        let n = self.cards.len();
                        let endk = crate::keyword::end_keyword();
                        let pos: usize = if n > 0 && self.cards[n - 1].keyword().matches_raw(
                            &endk,
                        ) {
                            n - 1
                        } else {
                            n
                        };
                        self.cards.insert(pos, card);
                        proof {
                            assert(pos as int == insert_pos(old(self).cards@));
                            assert forall|j: int| 0 <= j < final(self).cards@.len() implies (
                            #[trigger] final(self).cards@[j]).wf() by {
                                if j < pos {
                                    assert(final(self).cards@[j] == old(self).cards@[j]);
                                } else if j > pos {
                                    assert(final(self).cards@[j] == old(self).cards@[j - 1]);
                                }
                            }
                        }
                        Ok(())
                    },
                }
            },
        }
    }

    /// Sets the value of the card with the given keyword.
    /// If a card already exists, the value is overwritten, and the comment is retained.
    /// If a card does not exist, one is created, before a trailing
    /// terminator card if there is one.
    pub fn set_value<T: FitsHeaderValue>(&mut self, keyword: FitsHeaderKeyword, value: T) -> (r:
        Result<(), FitsHeaderError>)
        requires
            old(self).wf(),
        ensures
            final(self).wf(),
            match find_card(old(self).cards@, keyword@) {
                Some(i) => {
                    &&& final(self).cards@.len() == old(self).cards@.len()
                    &&& (forall|j: int|
                        0 <= j < old(self).cards@.len() && j != i ==> final(self).cards@[j]
                            == old(self).cards@[j])
                    &&& final(self).cards@[i].spec_keyword() == old(self).cards@[i].spec_keyword()
                    &&& crate::container::value_set_effect::<T>(
                        old(self).cards@[i].spec_container(),
                        final(self).cards@[i].spec_container(),
                        value,
                        r,
                    )
                },
                None => match r {
                    Ok(_) => {
                        let pos = insert_pos(old(self).cards@);
                        &&& value.encodable()
                        &&& final(self).cards@.len() == old(self).cards@.len() + 1
                        &&& placed_card::<T>(
                            final(self).cards@[pos],
                            keyword@,
                            value,
                            None::<Seq<char>>,
                        )
                        &&& (forall|j: int|
                            0 <= j < pos ==> final(self).cards@[j] == old(self).cards@[j])
                        &&& (forall|j: int|
                            pos <= j < old(self).cards@.len() ==> final(self).cards@[j + 1]
                                == old(self).cards@[j])
                    },
                    Err(_) => final(self).cards@ == old(self).cards@ && !value.encodable(),
                },
            },
    {
        match self.card_index(&keyword) {
            Some(i) => {
                let card = &mut self.cards[i];
                let r = card.set_value(value);
                proof {
                    assert forall|j: int| 0 <= j < final(self).cards@.len() implies (
                    #[trigger] final(self).cards@[j]).wf() by {
                        if j != i {
                            assert(final(self).cards@[j] == old(self).cards@[j]);
                        }
                    }
                }
                r
            },
            None => {
                match FitsHeaderValueContainer::new(value, None) {
                    Err(e) => Err(e),
                    Ok(container) => {
                        let card = FitsHeaderCard::from_parts(keyword, container);
                        let n = self.cards.len();
                        let endk = crate::keyword::end_keyword();
                        let pos: usize = if n > 0 && self.cards[n - 1].keyword().matches_raw(
                            &endk,
                        ) {
                            n - 1
                        } else {
                            n
                        };
                        self.cards.insert(pos, card);
                        proof {
                            assert(pos as int == insert_pos(old(self).cards@));
                            assert forall|j: int| 0 <= j < final(self).cards@.len() implies (
                            #[trigger] final(self).cards@[j]).wf() by {
                                if j < pos {
                                    assert(final(self).cards@[j] == old(self).cards@[j]);
                                } else if j > pos {
                                    assert(final(self).cards@[j] == old(self).cards@[j - 1]);
                                }
                            }
                        }
                        Ok(())
                    },
                }
            },
        }
    }

    /// Sets the comment of the card with the given keyword.
    /// If a card already exists, the comment is overwritten, and the value is retained.
    /// If a card does not exist, this function has no effect.
    pub fn set_comment(&mut self, keyword: FitsHeaderKeyword, comment: Option<String>) -> (r:
        Result<(), FitsHeaderError>)
        requires
            old(self).wf(),
        ensures
            final(self).wf(),
            match find_card(old(self).cards@, keyword@) {
                Some(i) => {
                    &&& final(self).cards@.len() == old(self).cards@.len()
                    &&& (forall|j: int|
                        0 <= j < old(self).cards@.len() && j != i ==> final(self).cards@[j]
                            == old(self).cards@[j])
                    &&& final(self).cards@[i].spec_keyword() == old(self).cards@[i].spec_keyword()
                    &&& crate::container::comment_set_effect(
                        old(self).cards@[i].spec_container(),
                        final(self).cards@[i].spec_container(),
                        match comment {
                            Some(c) => Some(c@),
                            None => None,
                        },
                        r,
                    )
                },
                None => r is Ok && final(self).cards@ == old(self).cards@,
            },
    {
        match self.card_index(&keyword) {
            Some(i) => {
                let card = &mut self.cards[i];
                let r = card.set_comment(comment);
                proof {
                    assert forall|j: int| 0 <= j < final(self).cards@.len() implies (
                    #[trigger] final(self).cards@[j]).wf() by {
                        if j != i {
                            assert(final(self).cards@[j] == old(self).cards@[j]);
                        }
                    }
                }
                r
            },
            None => Ok(()),
        }
    }
}

impl Default for FitsHeader {
    /// An empty header.
    fn default() -> (r: FitsHeader)
        ensures
            r.wf(),
            r.cards@.len() == 0,
    {
        FitsHeader { cards: Vec::new() }
    }
}

/// True when the card at index `i` is the undecoded card of the 80-byte
/// slice at `80 * i` of `raw`.
pub open spec fn fresh_card_at(card: FitsHeaderCard, raw: Seq<u8>, i: int) -> bool {
    &&& card.wf()
    &&& card.spec_bytes() == raw.subrange(80 * i, 80 * i + 80)
    &&& card.spec_keyword() == raw.subrange(80 * i, 80 * i + 8)
    &&& card.spec_container().spec_value() is None
    &&& card.spec_container().spec_comment() is None
    &&& card.spec_container().spec_raw() == raw.subrange(80 * i + 8, 80 * i + 80)
}

} // verus!
