//! The packed sink: two codes in every byte.

use vstd::prelude::*;
use core::ops::ControlFlow;
use crate::code::{code_of_tag, glyphs, is_tag, nibble_to_cologne, CologneCode};
use crate::resolver::{
    class_stream, encoded_onto, lemma_stream_fits, lemma_stream_prefix_fits, lemma_stream_step,
    window_of, Emitted, Resolver,
};
use crate::sink::{
    lemma_push_all_concat, lemma_push_all_len, sink_finish, sink_push, sink_push_all,
};

verus! {

/// The nibble at place `i` of `bytes`: the high half of byte `i / 2` where `i` is
/// even, the low half where it is odd.
pub open spec fn nibble_at(bytes: Seq<u8>, i: int) -> u8 {
    if i % 2 == 0 {
        bytes[i / 2] / 16
    } else {
        bytes[i / 2] % 16
    }
}

/// Whether `bytes` holds exactly `len` codes: it has a byte for every two of them,
/// each of its first `len` nibbles is a tag, and the nibble behind an odd number of
/// codes is zero.
pub open spec fn is_packing(bytes: Seq<u8>, len: nat) -> bool {
    &&& bytes.len() == (len + 1) / 2
    &&& forall|i: int| 0 <= i < len ==> is_tag(#[trigger] nibble_at(bytes, i))
    &&& len % 2 == 1 ==> bytes[len as int / 2] % 16 == 0
}

/// The first `len` codes that `bytes` holds.
pub open spec fn unpacked(bytes: Seq<u8>, len: nat) -> Seq<CologneCode> {
    Seq::new(len, |i: int| code_of_tag(nibble_at(bytes, i)))
}

/// The bytes that hold `codes`: code `2 * j` in the high half of byte `j`, code
/// `2 * j + 1` in its low half, and zero in the low half of the last byte where
/// the number of codes is odd.
pub open spec fn packed(codes: Seq<CologneCode>) -> Seq<u8> {
    Seq::new(
        ((codes.len() + 1) / 2) as nat,
        |j: int|
            (codes[2 * j].tag() * 16 + (if 2 * j + 1 < codes.len() {
                codes[2 * j + 1].tag()
            } else {
                0u8
            })) as u8,
    )
}

/// The last two codes of `codes` in one byte, the last one in the low half. A code
/// that is missing counts as zero.
pub open spec fn tail_byte(codes: Seq<CologneCode>) -> u8 {
    let n = codes.len() as int;
    if n == 0 {
        0u8
    } else if n == 1 {
        codes[0].tag()
    } else {
        (codes[n - 2].tag() * 16 + codes[n - 1].tag()) as u8
    }
}

/// Packing codes gives a packing of as many codes, and unpacking it gives them back.
pub proof fn lemma_unpack_packed(codes: Seq<CologneCode>)
    ensures
        is_packing(packed(codes), codes.len()),
        unpacked(packed(codes), codes.len()) == codes,
{
    let bytes = packed(codes);
    let n = codes.len() as int;
    assert(bytes.len() == (n + 1) / 2);
    assert forall|i: int| 0 <= i < n implies is_tag(#[trigger] nibble_at(bytes, i)) && code_of_tag(
        nibble_at(bytes, i),
    ) == codes[i] by {
        let j = i / 2;
        let hi = codes[2 * j].tag();
        let lo = if 2 * j + 1 < n {
            codes[2 * j + 1].tag()
        } else {
            0u8
        };
        assert(0 <= j < bytes.len());
        assert(hi <= 14 && lo <= 14);
        assert(bytes[j] == (hi * 16 + lo) as u8);
        assert(bytes[j] == hi * 16 + lo);
        assert(bytes[j] / 16 == hi);
        assert(bytes[j] % 16 == lo);
        if i % 2 == 0 {
            assert(i == 2 * j);
            assert(nibble_at(bytes, i) == codes[i].tag());
        } else {
            assert(i == 2 * j + 1);
            assert(nibble_at(bytes, i) == codes[i].tag());
        }
        assert(code_of_tag(codes[i].tag()) == codes[i]);
    }
    if n % 2 == 1 {
        let j = n / 2;
        assert(2 * j + 1 == n);
        assert(bytes[j] == (codes[2 * j].tag() * 16 + 0u8) as u8);
    }
    assert(unpacked(bytes, n as nat) =~= codes);
}

/// Unpacking a packing and packing the codes again gives the same bytes.
pub proof fn lemma_pack_unpacked(bytes: Seq<u8>, len: nat)
    requires
        is_packing(bytes, len),
    ensures
        packed(unpacked(bytes, len)) == bytes,
{
    let codes = unpacked(bytes, len);
    assert forall|j: int| 0 <= j < bytes.len() implies packed(codes)[j] == bytes[j] by {
        assert(is_tag(nibble_at(bytes, 2 * j)));
        assert(code_of_tag(bytes[j] / 16).tag() == bytes[j] / 16);
        if 2 * j + 1 < len {
            assert(is_tag(nibble_at(bytes, 2 * j + 1)));
            assert(code_of_tag(bytes[j] % 16).tag() == bytes[j] % 16);
        }
    }
    assert(packed(codes) =~= bytes);
}

/// Two lists of as many codes that are packed into the same bytes are the same
/// list: packed vectors are equal exactly if they hold the same codes.
pub proof fn lemma_packed_injective(a: Seq<CologneCode>, b: Seq<CologneCode>)
    requires
        a.len() == b.len(),
        packed(a) == packed(b),
    ensures
        a == b,
{
    lemma_unpack_packed(a);
    lemma_unpack_packed(b);
}

/// A break in the high half and `Class0` in the low half.
const BREAK_THEN_CLASS0: u8 = 0xE0;

proof fn lemma_nibbles(b: u8)
    by (bit_vector)
    ensures
        b >> 4 == b / 16,
        b & 0x0f == b % 16,
        b & 0xf0 == (b / 16) * 16,
        b << 4 == (b % 16) * 16,
{
}

proof fn lemma_join(hi: u8, lo: u8)
    by (bit_vector)
    requires
        hi % 16 == 0,
        lo < 16,
    ensures
        hi | lo == hi + lo,
        lo | hi == hi + lo,
{
}

/// Whether `flows` are the answers of the visitor `f` to a traversal of `codes`:
/// answer `j` is one that `f` can give to code `j`, every answer but the last is
/// `Continue`, and where codes are left over the last answer is `Break`.
pub open spec fn visits<F: FnMut(CologneCode) -> ControlFlow<()>>(
    f: F,
    codes: Seq<CologneCode>,
    flows: Seq<ControlFlow<()>>,
) -> bool {
    &&& flows.len() <= codes.len()
    &&& forall|j: int|
        0 <= j < flows.len() ==> call_ensures(f, (codes[j],), #[trigger] flows[j])
    &&& forall|j: int| 0 <= j < flows.len() - 1 ==> (#[trigger] flows[j]) is Continue
    &&& flows.len() < codes.len() ==> flows.len() > 0 && flows.last() is Break
}

/// A list of Cologne phonetics codes that takes four bits for each code.
#[derive(Debug, PartialEq, Eq, PartialOrd, Ord)]
pub struct CologneVec {
    len: usize,
    inner: Vec<u8>,
}

impl View for CologneVec {
    type V = Seq<CologneCode>;

    /// The codes that the vector holds, in their order.
    closed spec fn view(&self) -> Seq<CologneCode> {
        unpacked(self.inner@, self.len as nat)
    }
}

impl Clone for CologneVec {
    fn clone(&self) -> (codes: Self)
        ensures
            codes@ == self@,
    {
        proof {
            use_type_invariant(self);
        }
        let inner = self.inner.clone();
        proof {
            assert(inner@ =~= self.inner@);
        }
        CologneVec { len: self.len, inner }
    }
}

impl Default for CologneVec {
    fn default() -> (codes: Self)
        ensures
            codes@ == Seq::<CologneCode>::empty(),
    {
        CologneVec::new()
    }
}

impl CologneVec {
    #[verifier::type_invariant]
    spec fn wf(self) -> bool {
        is_packing(self.inner@, self.len as nat)
    }

    /// An empty vector without storage.
    pub fn new() -> (codes: Self)
        ensures
            codes@ == Seq::<CologneCode>::empty(),
    {
        let codes = CologneVec { len: 0, inner: Vec::new() };
        proof {
            assert(codes@ =~= Seq::<CologneCode>::empty());
        }
        codes
    }

    /// The number of codes that the vector holds.
    pub fn len(&self) -> (len: usize)
        ensures
            len == self@.len(),
    {
        self.len
    }

    /// Whether a vector of `len` codes ends at the border of a byte.
    fn byte_bound(len: usize) -> (even: bool)
        ensures
            even == (len % 2 == 0),
    {
        len % 2 == 0
    }

    /// Whether the last code is `code`.
    fn last_is(&self, code: CologneCode) -> (found: bool)
        ensures
            found == (self@.len() > 0 && self@.last() == code),
    {
        proof {
            use_type_invariant(self);
        }
        let code_hi = code.get() << 4;
        let n = self.inner.len();
        if n > 0 {
            let last = self.inner[n - 1];
            proof {
                lemma_nibbles(last);
                lemma_nibbles(code.tag());
                assert(is_tag(nibble_at(self.inner@, self.len - 1)));
            }
            if Self::byte_bound(self.len) {
                last << 4 == code_hi
            } else {
                last == code_hi
            }
        } else {
            false
        }
    }

    /// The last code, if there is one.
    pub fn last(&self) -> (code: Option<CologneCode>)
        ensures
            code == (if self@.len() == 0 {
                None
            } else {
                Some(self@.last())
            }),
    {
        proof {
            use_type_invariant(self);
        }
        if self.len == 0 {
            None
        } else {
            let last = self.inner[self.inner.len() - 1];
            proof {
                lemma_nibbles(last);
                assert(is_tag(nibble_at(self.inner@, self.len - 1)));
            }
            if Self::byte_bound(self.len) {
                Some(nibble_to_cologne(last & 0x0f))
            } else {
                Some(nibble_to_cologne(last >> 4))
            }
        }
    }

    /// The last two codes in one byte, the last one in the low half. A code that is
    /// missing counts as zero.
    fn last_byte(&self) -> (byte: u8)
        ensures
            byte == tail_byte(self@),
    {
        proof {
            use_type_invariant(self);
        }
        let n = self.inner.len();
        if n == 0 {
            return 0;
        }
        let last = self.inner[n - 1];
        proof {
            lemma_nibbles(last);
            assert(is_tag(nibble_at(self.inner@, self.len - 1)));
            if self.len >= 2 {
                assert(is_tag(nibble_at(self.inner@, self.len - 2)));
            }
        }
        if Self::byte_bound(self.len) {
            last
        } else if self.len == 1 {
            last >> 4
        } else {
            let before = self.inner[n - 2];
            proof {
                lemma_nibbles(before);
                lemma_join(before << 4, last >> 4);
            }
            (before << 4) | (last >> 4)
        }
    }

    /// Puts `code` in the place of the last code. An empty vector stays empty.
    fn replace_last(&mut self, code: CologneCode)
        ensures
            final(self)@ == (if old(self)@.len() == 0 {
                old(self)@
            } else {
                old(self)@.update(old(self)@.len() - 1, code)
            }),
    {
        proof {
            use_type_invariant(&*self);
        }
        if self.len == 0 {
            return;
        }
        let ghost held = self@;
        let mut taken = CologneVec::new();
        core::mem::swap(self, &mut taken);
        let CologneVec { len, mut inner } = taken;
        let ghost before = inner@;
        let n = inner.len();
        let last = inner[n - 1];
        let tag = code.get();
        proof {
            lemma_nibbles(last);
            lemma_nibbles(tag);
        }
        let byte = if Self::byte_bound(len) {
            proof {
                lemma_join(last & 0xf0, tag);
            }
            (last & 0xf0) | tag
        } else {
            proof {
                lemma_join(tag << 4, last & 0x0f);
            }
            (last & 0x0f) | (tag << 4)
        };
        inner[n - 1] = byte;
        proof {
            let after = inner@;
            assert(n == (len + 1) / 2);
            assert(held == unpacked(before, len as nat));
            assert(after == before.update(n - 1, byte));
            if len % 2 == 0 {
                assert(byte / 16 == last / 16);
                assert(byte % 16 == tag);
            } else {
                assert(last % 16 == 0);
                assert(byte / 16 == tag);
                assert(byte % 16 == 0);
            }
            assert forall|i: int| 0 <= i < len implies is_tag(#[trigger] nibble_at(after, i))
                && code_of_tag(nibble_at(after, i)) == held.update(len - 1, code)[i] by {
                assert(is_tag(nibble_at(before, i)));
                assert(held[i] == code_of_tag(nibble_at(before, i)));
                if i / 2 != n - 1 {
                    assert(after[i / 2] == before[i / 2]);
                } else {
                    assert(after[i / 2] == byte);
                    assert(before[i / 2] == last);
                }
            }
        }
        *self = CologneVec { len, inner };
        proof {
            assert(self@ =~= held.update(len - 1, code));
        }
    }

    /// Puts `code` behind the last code, whatever that one is.
    fn push_raw(&mut self, code: CologneCode)
        requires
            old(self)@.len() < usize::MAX,
        ensures
            final(self)@ == old(self)@.push(code),
    {
        proof {
            use_type_invariant(&*self);
        }
        let ghost held = self@;
        let mut taken = CologneVec::new();
        core::mem::swap(self, &mut taken);
        let CologneVec { len, mut inner } = taken;
        let ghost before = inner@;
        let tag = code.get();
        proof {
            lemma_nibbles(tag);
        }
        if Self::byte_bound(len) {
            inner.push(tag << 4);
        } else {
            let n = inner.len();
            let last = inner[n - 1];
            proof {
                lemma_join(last, tag);
            }
            inner[n - 1] = last | tag;
        }
        proof {
            let after = inner@;
            assert forall|i: int| 0 <= i < len + 1 implies is_tag(#[trigger] nibble_at(after, i))
                && code_of_tag(nibble_at(after, i)) == held.push(code)[i] by {
                if i < len {
                    assert(is_tag(nibble_at(before, i)));
                    assert(nibble_at(after, i) == nibble_at(before, i));
                }
            }
        }
        *self = CologneVec { len: len + 1, inner };
        proof {
            assert(self@ =~= held.push(code));
        }
    }

    /// Pushes `code` to the end of the vector under the rules of a sink: a code
    /// equal to the last one is ignored, a `Class0` that stands inside a word is
    /// overwritten, and every other code is appended.
    ///
    /// The vector must be able to count what it then holds. A code that is ignored
    /// or overwrites another needs no room.
    pub fn push(&mut self, code: CologneCode)
        requires
            sink_push(old(self)@, code).len() <= usize::MAX,
        ensures
            final(self)@ == sink_push(old(self)@, code),
    {
        if !self.last_is(code) {
            let last = self.last_byte();
            proof {
                lemma_nibbles(last);
            }
            if self.len() >= 2 && (last & 0x0f) == 0 && (last >> 4) != CologneCode::Space.get() {
                self.replace_last(code);
            } else {
                self.push_raw(code);
            }
        }
    }

    /// Pushes the classes of one byte to the end of the vector, in their order.
    ///
    /// The vector must be able to count what it then holds, as it can where it
    /// has room for every class of the byte.
    pub fn push_all(&mut self, emitted: &Emitted)
        requires
            sink_push_all(old(self)@, emitted@).len() <= usize::MAX || old(self)@.len()
                + emitted@.len() <= usize::MAX,
        ensures
            final(self)@ == sink_push_all(old(self)@, emitted@),
    {
        proof {
            emitted.lemma_push_all(self@);
            lemma_push_all_len(self@, emitted@);
        }
        if let Some(code) = emitted.resolved {
            self.push(code);
        }
        if let Some(code) = emitted.first {
            self.push(code);
        }
        if let Some(code) = emitted.second {
            self.push(code);
        }
    }

    /// Reads the text `bytes` into the vector: its classes are pushed behind what
    /// the vector holds, and the vector is finished.
    ///
    /// The vector must be able to count what it holds before it is finished. No
    /// text gives more than two codes for each of its bytes, so room for as many
    /// is enough.
    pub fn read_from_utf8(&mut self, bytes: &[u8])
        requires
            sink_push_all(old(self)@, class_stream(bytes@)).len() <= usize::MAX || old(self)@.len()
                + 2 * bytes@.len() <= usize::MAX,
        ensures
            final(self)@ == encoded_onto(old(self)@, bytes@),
    {
        let ghost held = self@;
        proof {
            lemma_stream_fits(held, bytes@);
        }
        let mut resolver = Resolver::new();
        let mut i: usize = 0;
        while i < bytes.len()
            invariant
                i <= bytes.len(),
                sink_push_all(held, class_stream(bytes@)).len() <= usize::MAX,
                resolver@ == window_of(bytes@.take(i as int)),
                self@ == sink_push_all(held, class_stream(bytes@.take(i as int))),
            decreases bytes.len() - i,
        {
            let emitted = resolver.feed(bytes[i]);
            proof {
                lemma_stream_step(bytes@, i as int);
                lemma_push_all_concat(held, class_stream(bytes@.take(i as int)), emitted@);
                lemma_stream_prefix_fits(held, bytes@, i + 1);
            }
            self.push_all(&emitted);
            i = i + 1;
        }
        proof {
            assert(bytes@.take(bytes.len() as int) == bytes@);
        }
        self.finish();
    }

    /// Finishes the vector: drops its last code where that is a `Class0` or a
    /// break, unless the vector ends in a break followed by `Class0`.
    pub fn finish(&mut self)
        ensures
            final(self)@ == sink_finish(old(self)@),
    {
        proof {
            use_type_invariant(&*self);
        }
        let last_byte = self.last_byte();
        if self.len == 0 || last_byte == BREAK_THEN_CLASS0 {
            return;
        }
        let ghost held = self@;
        let mut taken = CologneVec::new();
        core::mem::swap(self, &mut taken);
        let CologneVec { mut len, mut inner } = taken;
        let ghost before = inner@;
        let n = inner.len();
        let last = inner[n - 1];
        proof {
            lemma_nibbles(last);
            assert(is_tag(nibble_at(before, len - 1)));
        }
        if Self::byte_bound(len) {
            let nib = last & 0x0f;
            if nib == CologneCode::Class0.get() || nib == CologneCode::Space.get() {
                inner[n - 1] = last & 0xf0;
                len = len - 1;
            }
        } else {
            let nib = last >> 4;
            if nib == CologneCode::Class0.get() || nib == CologneCode::Space.get() {
                inner.pop();
                len = len - 1;
            }
        }
        proof {
            let after = inner@;
            assert forall|i: int| 0 <= i < len implies is_tag(#[trigger] nibble_at(after, i))
                && code_of_tag(nibble_at(after, i)) == held[i] by {
                assert(is_tag(nibble_at(before, i)));
                assert(nibble_at(after, i) == nibble_at(before, i));
            }
        }
        *self = CologneVec { len, inner };
        proof {
            assert(self@ =~= sink_finish(held));
        }
    }

    /// Removes every code and keeps the storage.
    pub fn clear(&mut self)
        ensures
            final(self)@ == Seq::<CologneCode>::empty(),
    {
        let mut taken = CologneVec::new();
        core::mem::swap(self, &mut taken);
        let CologneVec { len: _, mut inner } = taken;
        inner.clear();
        *self = CologneVec { len: 0, inner };
        proof {
            assert(self@ =~= Seq::<CologneCode>::empty());
        }
    }

    /// An empty vector with storage for at least `cap` bytes, that is `2 * cap`
    /// codes.
    pub fn with_capacity(cap: usize) -> (codes: Self)
        requires
            cap <= isize::MAX,
        ensures
            codes@ == Seq::<CologneCode>::empty(),
    {
        let codes = CologneVec { len: 0, inner: Vec::with_capacity(cap) };
        proof {
            assert(codes@ =~= Seq::<CologneCode>::empty());
        }
        codes
    }

    /// An empty vector that uses the storage of `inner`. What `inner` holds is
    /// dropped.
    pub fn from_inner(inner: Vec<u8>) -> (codes: Self)
        ensures
            codes@ == Seq::<CologneCode>::empty(),
    {
        let mut inner = inner;
        inner.clear();
        let codes = CologneVec { len: 0, inner };
        proof {
            assert(codes@ =~= Seq::<CologneCode>::empty());
        }
        codes
    }

    /// The vector of the `len` codes that `inner` holds.
    pub fn from_raw(inner: Vec<u8>, len: usize) -> (codes: Self)
        requires
            is_packing(inner@, len as nat),
        ensures
            codes@ == unpacked(inner@, len as nat),
    {
        CologneVec { len, inner }
    }

    /// Whether `inner` holds exactly `len` codes, as `from_raw` asks.
    pub fn is_valid_raw(inner: &[u8], len: usize) -> (valid: bool)
        ensures
            valid == is_packing(inner@, len as nat),
    {
        let n = inner.len();
        if n != len / 2 + len % 2 {
            return false;
        }
        let mut j: usize = 0;
        while j < n
            invariant
                j <= n,
                n == inner@.len(),
                n == (len + 1) / 2,
                forall|i: int| 0 <= i < 2 * j && i < len ==> is_tag(#[trigger] nibble_at(inner@, i)),
                j == n && len % 2 == 1 ==> inner@[n - 1] % 16 == 0,
            decreases n - j,
        {
            let byte = inner[j];
            let hi = byte >> 4;
            let lo = byte & 0x0f;
            proof {
                lemma_nibbles(byte);
            }
            if !(hi <= 8 || hi == 14) {
                proof {
                    assert(!is_tag(nibble_at(inner@, 2 * j)));
                }
                return false;
            }
            if j == n - 1 && len % 2 == 1 {
                if lo != 0 {
                    return false;
                }
            } else if !(lo <= 8 || lo == 14) {
                proof {
                    assert(!is_tag(nibble_at(inner@, 2 * j + 1)));
                }
                return false;
            }
            proof {
                assert forall|i: int| 0 <= i < 2 * (j + 1) && i < len implies is_tag(
                    #[trigger] nibble_at(inner@, i),
                ) by {
                    if i == 2 * j {
                    } else if i == 2 * j + 1 {
                    }
                }
            }
            j = j + 1;
        }
        true
    }

    /// A vector of exactly the codes of `codes`, finished.
    pub fn from_codes(codes: &[CologneCode]) -> (packed: Self)
        ensures
            packed@ == sink_finish(codes@),
    {
        let mut me = Self::new();
        let mut i: usize = 0;
        while i < codes.len()
            invariant
                i <= codes.len(),
                me@ == codes@.take(i as int),
            decreases codes.len() - i,
        {
            me.push_raw(codes[i]);
            proof {
                assert(codes@.take(i + 1) == codes@.take(i as int).push(codes@[i as int]));
            }
            i = i + 1;
        }
        proof {
            assert(codes@.take(codes.len() as int) == codes@);
        }
        me.finish();
        me
    }

    /// The storage of the vector, two codes in every byte.
    pub fn into_inner(self) -> (bytes: Vec<u8>)
        ensures
            bytes@ == packed(self@),
    {
        proof {
            use_type_invariant(&self);
            lemma_pack_unpacked(self.inner@, self.len as nat);
        }
        self.inner
    }

    /// The storage of the vector and the number of codes in it.
    pub fn into_raw(self) -> (raw: (Vec<u8>, usize))
        ensures
            raw.0@ == packed(self@),
            raw.1 == self@.len(),
            is_packing(raw.0@, raw.1 as nat),
            unpacked(raw.0@, raw.1 as nat) == self@,
    {
        proof {
            use_type_invariant(&self);
            lemma_pack_unpacked(self.inner@, self.len as nat);
        }
        (self.inner, self.len)
    }

    /// The bytes of the storage, two codes in every byte.
    pub fn get_raw(&self) -> (bytes: &[u8])
        ensures
            bytes@ == packed(self@),
    {
        proof {
            use_type_invariant(self);
            lemma_pack_unpacked(self.inner@, self.len as nat);
        }
        self.inner.as_slice()
    }

    /// The code at place `i`.
    fn code_at(&self, i: usize) -> (code: CologneCode)
        requires
            i < self@.len(),
        ensures
            code == self@[i as int],
    {
        proof {
            use_type_invariant(self);
        }
        let byte = self.inner[i / 2];
        proof {
            lemma_nibbles(byte);
            assert(is_tag(nibble_at(self.inner@, i as int)));
        }
        if i % 2 == 0 {
            nibble_to_cologne(byte >> 4)
        } else {
            nibble_to_cologne(byte & 0x0f)
        }
    }

    /// The codes of the vector as a plain list.
    pub fn to_codes(&self) -> (codes: Vec<CologneCode>)
        ensures
            codes@ == self@,
    {
        let mut codes: Vec<CologneCode> = Vec::new();
        let mut i: usize = 0;
        while i < self.len()
            invariant
                i <= self@.len(),
                codes@ == self@.take(i as int),
            decreases self@.len() - i,
        {
            codes.push(self.code_at(i));
            proof {
                assert(self@.take(i + 1) == self@.take(i as int).push(self@[i as int]));
            }
            i = i + 1;
        }
        proof {
            assert(self@.take(self@.len() as int) == self@);
        }
        codes
    }

    /// Hands the codes of the vector to `f`, one after the other and in their order,
    /// until it returns `Break` or the codes have run out. A code behind the one on
    /// which `f` returned `Break` is not handed on.
    pub fn internal_iter<F: FnMut(CologneCode) -> ControlFlow<()>>(&self, f: F)
        requires
            forall|code: CologneCode| call_requires(f, (code,)),
        ensures
            exists|flows: Seq<ControlFlow<()>>| visits(f, self@, flows),
    {
        let mut g = f;
        let ghost mut flows: Seq<ControlFlow<()>> = Seq::empty();
        let mut i: usize = 0;
        while i < self.len()
            invariant
                i <= self@.len(),
                g == f,
                forall|code: CologneCode| call_requires(f, (code,)),
                flows.len() == i,
                forall|j: int|
                    0 <= j < i ==> call_ensures(f, (self@[j],), #[trigger] flows[j])
                        && flows[j] is Continue,
            decreases self@.len() - i,
        {
            let flow = g(self.code_at(i));
            proof {
                flows = flows.push(flow);
            }
            match flow {
                ControlFlow::Break(_) => {
                    proof {
                        assert(visits(f, self@, flows));
                    }
                    return;
                },
                ControlFlow::Continue(_) => {},
            }
            i = i + 1;
        }
        proof {
            assert(visits(f, self@, flows));
        }
    }

    /// The codes of the vector as text between square brackets, a digit for each
    /// class and a blank for each break: `[657 52682]`.
    pub fn render(&self) -> (text: String)
        ensures
            text@ == seq!['['] + glyphs(self@) + seq![']'],
    {
        let mut text = String::new();
        text.push('[');
        let mut i: usize = 0;
        while i < self.len()
            invariant
                i <= self@.len(),
                text@ == seq!['['] + glyphs(self@.take(i as int)),
            decreases self@.len() - i,
        {
            text.push(self.code_at(i).as_char());
            proof {
                assert(self@.take(i + 1) == self@.take(i as int).push(self@[i as int]));
                assert(glyphs(self@.take(i + 1)) == glyphs(self@.take(i as int)).push(
                    self@[i as int].glyph(),
                ));
            }
            i = i + 1;
        }
        proof {
            assert(self@.take(self@.len() as int) == self@);
        }
        text.push(']');
        text
    }
}

} // verus!
