//! Construction of a Binary Table type HDU, and its column lookup.

use vstd::prelude::*;

use crate::hdu::Hdu;
use crate::hdu_types::{column_by_index_effect, column_by_name_effect};
use crate::tform::FitsColumn;

verus! {

/// Constructs an HDU pre-populated with the required cards to be a Binary Table HDU.
pub fn default() -> (r: Hdu)
    ensures
        r.wf(),
        r.spec_data().len() == 0,
        r.spec_header().cards@.len() == 9,
        crate::hdu_types::quoted_card_state(
            r.spec_header().cards@[0],
            crate::keyword::spec_xtension_keyword(),
            seq![66u8, 73, 78, 84, 65, 66, 76, 69],
        ),
        crate::header::placed_card::<crate::bitpix::Bitpix>(
            r.spec_header().cards@[1],
            crate::keyword::spec_bitpix_keyword(),
            crate::bitpix::Bitpix::U8,
            None::<Seq<char>>,
        ),
        crate::header::placed_card::<u16>(
            r.spec_header().cards@[2],
            crate::keyword::spec_naxis_keyword(),
            2u16,
            None::<Seq<char>>,
        ),
        crate::header::placed_card::<u32>(
            r.spec_header().cards@[3],
            crate::keyword::append_number_spec(crate::keyword::spec_naxis_keyword(), 1),
            0u32,
            None::<Seq<char>>,
        ),
        crate::header::placed_card::<u32>(
            r.spec_header().cards@[4],
            crate::keyword::append_number_spec(crate::keyword::spec_naxis_keyword(), 2),
            0u32,
            None::<Seq<char>>,
        ),
        crate::header::placed_card::<u16>(
            r.spec_header().cards@[5],
            crate::hdu_types::spec_pcount_keyword(),
            0u16,
            None::<Seq<char>>,
        ),
        crate::header::placed_card::<u16>(
            r.spec_header().cards@[6],
            crate::hdu_types::spec_gcount_keyword(),
            1u16,
            None::<Seq<char>>,
        ),
        crate::header::placed_card::<u16>(
            r.spec_header().cards@[7],
            crate::hdu_types::spec_tfields_keyword(),
            0u16,
            None::<Seq<char>>,
        ),
        crate::hdu_types::end_card_state(r.spec_header().cards@[8]),
{
    let xtension_card = crate::hdu_types::quoted_raw_card(
        crate::keyword::xtension_keyword(),
        &[66u8, 73, 78, 84, 65, 66, 76, 69],
    );
    crate::hdu_types::table_tail(xtension_card)
}

/// Obtains the data in the column of the given name, or None if a
/// column with the given name cannot be found.
pub fn column_by_name(hdu: &Hdu, name: &str) -> (r: Option<FitsColumn>)
    requires
        hdu.wf(),
    ensures
        column_by_name_effect(*hdu, name@, r),
{
    crate::hdu_types::column_by_name_impl(hdu, name)
}

/// Obtains the data in the column of the given index, or None if a
/// column with the given index cannot be found.
/// Note that column indeces start at 1.
pub fn column_by_index(hdu: &Hdu, index: u16) -> (r: Option<FitsColumn>)
    requires
        hdu.wf(),
    ensures
        column_by_index_effect(*hdu, index, r),
{
    crate::hdu_types::column_by_index_impl(hdu, index)
}

} // verus!
