//! A verified codec for the FITS container format: 80-byte header cards
//! grouped into 2880-byte records, followed by sized binary payloads.
//!
//! Header text is treated as ASCII throughout, as the format
//! prescribes for its character data: decoding a string value or a
//! comment that holds a byte of 128 or above fails with a
//! deserialization error, and setting one is refused, rather than
//! carrying text the card grammar cannot guarantee to reproduce.

pub mod ascii_table_hdu;
pub mod binary_table_hdu;
pub mod bitpix;
pub mod bytesutil;
pub mod container;
pub mod error;
pub mod hdu;
pub mod hdu_list;
pub mod hdu_types;
pub mod header;
pub mod image_hdu;
pub mod keyword;
pub mod laws;
pub mod primary_hdu;
pub mod sesame;
pub mod tform;
pub mod value;
