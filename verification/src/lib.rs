//! Cologne phonetics ("Kölner Phonetik"): a phonetic fingerprint for German words.
//!
//! Text is scanned byte by byte. Every letter is given a digit class from `0` to `8`,
//! some of them only once the following letter is known, and every other ASCII byte
//! breaks the word. The classes then pass through a sink that drops repeated classes
//! and stray vowels: a packed vector with two codes per byte ([`CologneVec`]), a
//! plain `Vec<CologneCode>` ([`utf8_to_cologne_codes_vec`]) or a `String` of digits
//! ([`utf8_to_cologne_codes_string`]).

use vstd::prelude::*;

pub mod code;
pub mod cologne_vec;
pub mod laws;
pub mod letters;
pub mod list;
pub mod resolver;
pub mod sink;
pub mod string;

pub use code::{cologne_code_vec_to_bytevec, CologneCode};
pub use cologne_vec::CologneVec;
pub use list::utf8_to_cologne_codes_vec;
pub use string::utf8_to_cologne_codes_string;
