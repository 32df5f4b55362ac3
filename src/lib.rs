//! Decoding of the asset archives of a racing game: the index of records,
//! the GT20 compressed stream and the BTP texture container.

pub mod file_formats;
