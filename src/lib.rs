//! Character cards: PNG images that carry a base64-encoded JSON persona in a
//! `tEXt` chunk, read and written in two schema generations.

pub mod png;
pub mod payload;
pub mod json;
pub mod schema;
pub mod card;
