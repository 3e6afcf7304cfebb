//! Drunken-bishop rendering of binary fingerprints as bordered ASCII art.
use vstd::prelude::*;

pub mod laws;
pub mod render;
pub mod walk;

pub use render::{drunken_bishop, try_drunken_bishop, BishopError};
pub use walk::{in_range, walk, Walk};

verus! {

/// A rendering configuration: grid size and the glyphs that stand for visit counts.
///
/// The last glyph of `alphabet` marks the end of the walk, the one before it the start.
pub struct Mode<'a> {
    pub height: usize,
    pub width: usize,
    pub alphabet: &'a [u8],
}

/// The glyphs of the standard preset: `" .o+=*BOX@%&#/^SE"`.
pub const OPENSSL_ALPHABET: [u8; 17] = [32, 46, 111, 43, 61, 42, 66, 79, 88, 64, 37, 38, 35, 47, 94, 83, 69];

/// The standard SSH randomart preset: 9 rows, 17 columns.
pub fn openssl() -> (m: Mode<'static>)
    ensures
        m.height == 9,
        m.width == 17,
        m.alphabet@ == OPENSSL_ALPHABET@,
{
    Mode { height: 9, width: 17, alphabet: &OPENSSL_ALPHABET }
}

} // verus!
