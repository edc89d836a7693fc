//! The symbols of a Cologne phonetics code.

use vstd::prelude::*;

verus! {

/// One symbol of a Cologne phonetics code: a digit class or a word break.
#[derive(Debug, Clone, Copy, PartialEq, Eq, Structural, PartialOrd, Ord, Hash)]
pub enum CologneCode {
    /// `0`: A, E, I, J, O, U, Y
    Class0,
    /// `1`: B, and P unless it stands in front of H
    Class1,
    /// `2`: D and T unless they stand in front of C, S or Z
    Class2,
    /// `3`: F, V, W, and P in front of H
    Class3,
    /// `4`: G, K, Q, C in front of a hard sound, and the first half of X
    Class4,
    /// `5`: L
    Class5,
    /// `6`: M, N
    Class6,
    /// `7`: R
    Class7,
    /// `8`: S, Z, the second half of X, and C, D, T next to a sibilant
    Class8,
    /// A break between two words.
    Space,
}

/// Whether `tag` is the four-bit tag of some code: `0` to `8`, or `14` for the break.
pub open spec fn is_tag(tag: u8) -> bool {
    tag <= 8 || tag == 14
}

/// The code stored under `tag`. Only meaningful where `is_tag(tag)`.
pub open spec fn code_of_tag(tag: u8) -> CologneCode {
    match tag {
        0 => CologneCode::Class0,
        1 => CologneCode::Class1,
        2 => CologneCode::Class2,
        3 => CologneCode::Class3,
        4 => CologneCode::Class4,
        5 => CologneCode::Class5,
        6 => CologneCode::Class6,
        7 => CologneCode::Class7,
        8 => CologneCode::Class8,
        _ => CologneCode::Space,
    }
}

/// The tags of `codes`, one byte for each code.
pub open spec fn tags(codes: Seq<CologneCode>) -> Seq<u8> {
    Seq::new(codes.len(), |i: int| codes[i].tag())
}

/// The printable characters of `codes`, one for each code.
pub open spec fn glyphs(codes: Seq<CologneCode>) -> Seq<char> {
    Seq::new(codes.len(), |i: int| codes[i].glyph())
}

impl CologneCode {
    /// The four-bit tag under which a code is stored: its digit, or `14` for the break.
    pub open spec fn tag(self) -> u8 {
        match self {
            CologneCode::Class0 => 0,
            CologneCode::Class1 => 1,
            CologneCode::Class2 => 2,
            CologneCode::Class3 => 3,
            CologneCode::Class4 => 4,
            CologneCode::Class5 => 5,
            CologneCode::Class6 => 6,
            CologneCode::Class7 => 7,
            CologneCode::Class8 => 8,
            CologneCode::Space => 14,
        }
    }

    /// The character a code is printed as: its digit, or a blank for the break.
    pub open spec fn glyph(self) -> char {
        match self {
            CologneCode::Class0 => '0',
            CologneCode::Class1 => '1',
            CologneCode::Class2 => '2',
            CologneCode::Class3 => '3',
            CologneCode::Class4 => '4',
            CologneCode::Class5 => '5',
            CologneCode::Class6 => '6',
            CologneCode::Class7 => '7',
            CologneCode::Class8 => '8',
            CologneCode::Space => ' ',
        }
    }

    /// The tag of this code as a byte. Only the low nibble is ever set.
    pub fn get(self) -> (tag: u8)
        ensures
            tag == self.tag(),
            is_tag(tag),
            code_of_tag(tag) == self,
    {
        match self {
            CologneCode::Class0 => 0,
            CologneCode::Class1 => 1,
            CologneCode::Class2 => 2,
            CologneCode::Class3 => 3,
            CologneCode::Class4 => 4,
            CologneCode::Class5 => 5,
            CologneCode::Class6 => 6,
            CologneCode::Class7 => 7,
            CologneCode::Class8 => 8,
            CologneCode::Space => 14,
        }
    }

    /// The character this code is printed as.
    pub fn as_char(self) -> (ch: char)
        ensures
            ch == self.glyph(),
    {
        match self {
            CologneCode::Class0 => '0',
            CologneCode::Class1 => '1',
            CologneCode::Class2 => '2',
            CologneCode::Class3 => '3',
            CologneCode::Class4 => '4',
            CologneCode::Class5 => '5',
            CologneCode::Class6 => '6',
            CologneCode::Class7 => '7',
            CologneCode::Class8 => '8',
            CologneCode::Space => ' ',
        }
    }
}

/// The code stored under a nibble that is known to be a tag.
pub(crate) fn nibble_to_cologne(b: u8) -> (code: CologneCode)
    requires
        is_tag(b),
    ensures
        code == code_of_tag(b),
        code.tag() == b,
{
    match b {
        0 => CologneCode::Class0,
        1 => CologneCode::Class1,
        2 => CologneCode::Class2,
        3 => CologneCode::Class3,
        4 => CologneCode::Class4,
        5 => CologneCode::Class5,
        6 => CologneCode::Class6,
        7 => CologneCode::Class7,
        8 => CologneCode::Class8,
        _ => CologneCode::Space,
    }
}

/// Turns a list of codes into the list of their tags, one byte for each code.
pub fn cologne_code_vec_to_bytevec(outbuf: Vec<CologneCode>) -> (bytes: Vec<u8>)
    ensures
        bytes@ == tags(outbuf@),
{
    let mut bytes: Vec<u8> = Vec::with_capacity(outbuf.len());
    let mut i: usize = 0;
    while i < outbuf.len()
        invariant
            i <= outbuf.len(),
            bytes@ == tags(outbuf@.take(i as int)),
        decreases outbuf.len() - i,
    {
        bytes.push(outbuf[i].get());
        proof {
            assert(outbuf@.take(i + 1) == outbuf@.take(i as int).push(outbuf@[i as int]));
            assert(bytes@ == tags(outbuf@.take(i + 1)));
        }
        i = i + 1;
    }
    proof {
        assert(outbuf@.take(outbuf.len() as int) == outbuf@);
    }
    bytes
}

} // verus!
