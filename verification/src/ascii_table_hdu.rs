//! Construction of an ASCII Table type HDU.

use vstd::prelude::*;

use crate::hdu::Hdu;

verus! {

/// Constructs an HDU pre-populated with the required cards to be an ASCII Table HDU.
pub fn default() -> (r: Hdu)
    ensures
        r.wf(),
        r.spec_data().len() == 0,
        r.spec_header().cards@.len() == 9,
        crate::hdu_types::quoted_card_state(
            r.spec_header().cards@[0],
            crate::keyword::spec_xtension_keyword(),
            seq![84u8, 65, 66, 76, 69, 32, 32, 32],
        ),
        crate::header::placed_card::<crate::bitpix::Bitpix>(
            r.spec_header().cards@[1],
            crate::keyword::spec_bitpix_keyword(),
            crate::bitpix::Bitpix::U8,
            None::<Seq<char>>,
        ),
        crate::header::placed_card::<u16>(
            r.spec_header().cards@[2],
            crate::keyword::spec_naxis_keyword(),
            2u16,
            None::<Seq<char>>,
        ),
        crate::header::placed_card::<u32>(
            r.spec_header().cards@[3],
            crate::keyword::append_number_spec(crate::keyword::spec_naxis_keyword(), 1),
            0u32,
            None::<Seq<char>>,
        ),
        crate::header::placed_card::<u32>(
            r.spec_header().cards@[4],
            crate::keyword::append_number_spec(crate::keyword::spec_naxis_keyword(), 2),
            0u32,
            None::<Seq<char>>,
        ),
        crate::header::placed_card::<u16>(
            r.spec_header().cards@[5],
            crate::hdu_types::spec_pcount_keyword(),
            0u16,
            None::<Seq<char>>,
        ),
        crate::header::placed_card::<u16>(
            r.spec_header().cards@[6],
            crate::hdu_types::spec_gcount_keyword(),
            1u16,
            None::<Seq<char>>,
        ),
        crate::header::placed_card::<u16>(
            r.spec_header().cards@[7],
            crate::hdu_types::spec_tfields_keyword(),
            0u16,
            None::<Seq<char>>,
        ),
        crate::hdu_types::end_card_state(r.spec_header().cards@[8]),
{
    let xtension_card = crate::hdu_types::quoted_raw_card(
        crate::keyword::xtension_keyword(),
        &[84u8, 65, 66, 76, 69, 32, 32, 32],
    );
    crate::hdu_types::table_tail(xtension_card)
}

} // verus!
