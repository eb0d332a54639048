//! Construction of an Image type HDU.

use vstd::prelude::*;

use crate::hdu::Hdu;
use crate::header::{FitsHeader, FitsHeaderCard};

verus! {

/// Constructs an HDU pre-populated with the required cards to be an Image HDU.
pub fn default() -> (r: Hdu)
    ensures
        r.wf(),
        r.spec_data().len() == 0,
        r.spec_header().cards@.len() == 6,
        crate::hdu_types::quoted_card_state(
            r.spec_header().cards@[0],
            crate::keyword::spec_xtension_keyword(),
            seq![73u8, 77, 65, 71, 69, 32, 32, 32],
        ),
        crate::header::placed_card::<crate::bitpix::Bitpix>(
            r.spec_header().cards@[1],
            crate::keyword::spec_bitpix_keyword(),
            crate::bitpix::Bitpix::U8,
            None::<Seq<char>>,
        ),
        crate::header::placed_card::<u16>(
            r.spec_header().cards@[2],
            crate::keyword::spec_naxis_keyword(),
            0u16,
            None::<Seq<char>>,
        ),
        crate::header::placed_card::<u16>(
            r.spec_header().cards@[3],
            crate::hdu_types::spec_pcount_keyword(),
            0u16,
            None::<Seq<char>>,
        ),
        crate::header::placed_card::<u16>(
            r.spec_header().cards@[4],
            crate::hdu_types::spec_gcount_keyword(),
            1u16,
            None::<Seq<char>>,
        ),
        crate::hdu_types::end_card_state(r.spec_header().cards@[5]),
{
    let xtension_card = crate::hdu_types::quoted_raw_card(
        crate::keyword::xtension_keyword(),
        &[73u8, 77, 65, 71, 69, 32, 32, 32],
    );
    let bitpix_card = crate::hdu_types::value_card(
        crate::keyword::bitpix_keyword(),
        crate::bitpix::Bitpix::U8,
    );
    let naxis_card = crate::hdu_types::value_card(crate::keyword::naxis_keyword(), 0u16);
    let pcount_card = crate::hdu_types::value_card(crate::hdu_types::pcount_keyword(), 0u16);
    let gcount_card = crate::hdu_types::value_card(crate::hdu_types::gcount_keyword(), 1u16);
    let endc = crate::hdu_types::end_card();
    let mut cards: Vec<FitsHeaderCard> = Vec::new();
    cards.push(xtension_card);
    cards.push(bitpix_card);
    cards.push(naxis_card);
    cards.push(pcount_card);
    cards.push(gcount_card);
    cards.push(endc);
    Hdu::from_parts(FitsHeader { cards }, Vec::new())
}

} // verus!
