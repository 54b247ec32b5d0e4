//! Share codes for crosshair settings: the text form
//! `CSGO-XXXXX-XXXXX-XXXXX-XXXXX-XXXXX`, the 18 bytes that it carries and the
//! settings packed into them.
//!
//! - `alphabet`: the 57 symbols and the digits they stand for.
//! - `radix`: numbers and their digits to a base, in specifications.
//! - `natural`: numbers of any size, computed by `num_bigint`.
//! - `transcoder`: between symbols, numbers and bytes.
//! - `settings`: crosshair settings and their payload of 18 bytes.
//! - `profile`: settings under a name, with the code they came from.
//! - `share_code`: decoding and encoding, and the laws that bind the two.
//! - `error`: why a code is refused.
//! - `accounts`: what the texts of a Steam account tell of it.

pub mod accounts;
pub mod alphabet;
pub mod error;
pub mod natural;
pub mod profile;
pub mod radix;
pub mod settings;
pub mod share_code;
mod text;
pub mod transcoder;
