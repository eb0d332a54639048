//! Construction of a Primary type HDU.

use vstd::prelude::*;

use crate::hdu::{spec_bool_of, spec_naxis, Hdu};
use crate::header::{FitsHeader, FitsHeaderCard};

verus! {

/// Constructs an HDU pre-populated with the required cards to be a
/// Primary HDU: a true first-section marker, an 8-bit size tag, a
/// zero axis count, and the terminator.
pub fn default() -> (r: Hdu)
    ensures
        r.wf(),
        r.spec_data().len() == 0,
        r.spec_header().cards@.len() == 4,
        crate::header::placed_card::<bool>(
            r.spec_header().cards@[0],
            crate::keyword::spec_simple_keyword(),
            true,
            None::<Seq<char>>,
        ),
        crate::header::placed_card::<crate::bitpix::Bitpix>(
            r.spec_header().cards@[1],
            crate::keyword::spec_bitpix_keyword(),
            crate::bitpix::Bitpix::U8,
            None::<Seq<char>>,
        ),
        crate::header::placed_card::<u16>(
            r.spec_header().cards@[2],
            crate::keyword::spec_naxis_keyword(),
            0u16,
            None::<Seq<char>>,
        ),
        crate::hdu_types::end_card_state(r.spec_header().cards@[3]),
        spec_bool_of(r.spec_header().cards@, crate::keyword::spec_simple_keyword()),
        spec_naxis(r.spec_header().cards@) == 0,
{
    let simple_card = crate::hdu_types::value_card(crate::keyword::simple_keyword(), true);
    let bitpix_card = crate::hdu_types::value_card(
        crate::keyword::bitpix_keyword(),
        crate::bitpix::Bitpix::U8,
    );
    let naxis_card = crate::hdu_types::value_card(crate::keyword::naxis_keyword(), 0u16);
    let endc = crate::hdu_types::end_card();
    let mut cards: Vec<FitsHeaderCard> = Vec::new();
    cards.push(simple_card);
    cards.push(bitpix_card);
    cards.push(naxis_card);
    cards.push(endc);
    let header = FitsHeader { cards };
    proof {
        assert(crate::keyword::spec_simple_keyword()[0] == 83);
        assert(crate::keyword::spec_naxis_keyword()[0] == 78);
        assert(crate::keyword::spec_bitpix_keyword()[0] == 66);
        crate::header::lemma_find_card_at(
            header.cards@,
            crate::keyword::spec_simple_keyword(),
            0,
        );
        crate::header::lemma_find_card_at(
            header.cards@,
            crate::keyword::spec_naxis_keyword(),
            2,
        );
    }
    Hdu::from_parts(header, Vec::new())
}

} // verus!
