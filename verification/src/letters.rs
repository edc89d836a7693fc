//! From bytes to letters: the four German letters outside ASCII, and the place of
//! a letter in the alphabet.

use vstd::prelude::*;

verus! {

/// First byte of the UTF-8 form of `ä`, `ö`, `ü` and `ß`.
pub const GERMAN_SPECIAL_CHAR_FIRST_BYTE: u8 = 195;

/// Second byte of the UTF-8 form of `ä`.
pub const GERMAN_AE_SECOND_BYTE: u8 = 164;

/// Second byte of the UTF-8 form of `ö`.
pub const GERMAN_OE_SECOND_BYTE: u8 = 182;

/// Second byte of the UTF-8 form of `ü`.
pub const GERMAN_UE_SECOND_BYTE: u8 = 188;

/// Second byte of the UTF-8 form of `ß`.
pub const GERMAN_SZ_SECOND_BYTE: u8 = 159;

/// The ASCII byte `A`.
pub const UPPER_A: u8 = 65;

/// The ASCII byte `O`.
pub const UPPER_O: u8 = 79;

/// The ASCII byte `U`.
pub const UPPER_U: u8 = 85;

/// The ASCII byte `Z`.
pub const UPPER_Z: u8 = 90;

/// The ASCII byte `a`.
pub const LOWER_A: u8 = 97;

/// The ASCII byte `z`.
pub const LOWER_Z: u8 = 122;

/// Place of `A` in the alphabet.
pub const IDX_A: u8 = 0;

/// Place of `C` in the alphabet.
pub const IDX_C: u8 = 2;

/// Place of `D` in the alphabet.
pub const IDX_D: u8 = 3;

/// Place of `H` in the alphabet.
pub const IDX_H: u8 = 7;

/// Place of `K` in the alphabet.
pub const IDX_K: u8 = 10;

/// Place of `L` in the alphabet.
pub const IDX_L: u8 = 11;

/// Place of `O` in the alphabet.
pub const IDX_O: u8 = 14;

/// Place of `P` in the alphabet.
pub const IDX_P: u8 = 15;

/// Place of `Q` in the alphabet.
pub const IDX_Q: u8 = 16;

/// Place of `R` in the alphabet.
pub const IDX_R: u8 = 17;

/// Place of `S` in the alphabet.
pub const IDX_S: u8 = 18;

/// Place of `T` in the alphabet.
pub const IDX_T: u8 = 19;

/// Place of `U` in the alphabet.
pub const IDX_U: u8 = 20;

/// Place of `X` in the alphabet.
pub const IDX_X: u8 = 23;

/// Place of `Z` in the alphabet.
pub const IDX_Z: u8 = 25;

/// What stands for every byte that is no letter, and for the start of the text.
pub const IDX_SPACE: u8 = 26;

/// The place of the ASCII letter `b` in the alphabet, `0` for `A` or `a` up to `25`
/// for `Z` or `z`, and `IDX_SPACE` for every other byte.
pub open spec fn letter_index(b: u8) -> u8 {
    if UPPER_A <= b <= UPPER_Z {
        (b - UPPER_A) as u8
    } else if LOWER_A <= b <= LOWER_Z {
        (b - LOWER_A) as u8
    } else {
        IDX_SPACE
    }
}

/// The ASCII byte that is classified for `byte`, if any.
///
/// `armed` says that the byte before was `GERMAN_SPECIAL_CHAR_FIRST_BYTE`. That byte
/// itself is never classified. Behind it the second byte of `ä`, `ö`, `ü` and `ß`
/// stands for `A`, `O`, `U` and `Z`. Every other byte above `0x7F` is skipped, and
/// every byte up to `0x7F` is classified as it is.
pub open spec fn transliterated(armed: bool, byte: u8) -> Option<u8> {
    if byte <= 0x7F {
        Some(byte)
    } else if !armed {
        None
    } else if byte == GERMAN_AE_SECOND_BYTE {
        Some(UPPER_A)
    } else if byte == GERMAN_OE_SECOND_BYTE {
        Some(UPPER_O)
    } else if byte == GERMAN_UE_SECOND_BYTE {
        Some(UPPER_U)
    } else if byte == GERMAN_SZ_SECOND_BYTE {
        Some(UPPER_Z)
    } else {
        None
    }
}

proof fn lemma_fold_upper(d: u8)
    by (bit_vector)
    requires
        d <= 25,
    ensures
        d & !32u8 == d,
{
}

proof fn lemma_fold_lower(d: u8)
    by (bit_vector)
    requires
        32 <= d <= 57,
    ensures
        d & !32u8 == d - 32,
{
}

/// The place of `b` in the alphabet, whichever case it has; `IDX_SPACE` for
/// punctuation, digits and every other byte that is no ASCII letter.
pub fn lowercase_b(b: u8) -> (idx: u8)
    ensures
        idx == letter_index(b),
        idx <= IDX_SPACE,
{
    if b < UPPER_A || (b > UPPER_Z && b < LOWER_A) || b > LOWER_Z {
        IDX_SPACE
    } else {
        let d: u8 = b - UPPER_A;
        proof {
            if d <= 25 {
                lemma_fold_upper(d);
            } else {
                lemma_fold_lower(d);
            }
        }
        d & !32u8
    }
}

} // verus!
