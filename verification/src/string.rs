//! The string sink: classes written as digits and blanks.
//!
//! A class that has arrived may still be overwritten or dropped by the one that
//! follows it, so the sink keeps back the last two classes and writes a character
//! only once its class can no longer change.

use vstd::prelude::*;
use crate::code::{glyphs, CologneCode};
use crate::resolver::{
    class_stream, encoding, lemma_stream_step, slot_codes, window_of, Emitted, Resolver,
};
use crate::sink::{lemma_push_all_concat, sink_finish, sink_push, sink_push_all};

verus! {

/// `String::push` appends one character to the end of the string.
pub assume_specification[ String::push ](s: &mut String, ch: char)
    ensures
        final(s)@ == old(s)@.push(ch),
;

/// A sink that writes the classes it holds to the end of a string.
pub struct CologneString {
    first: Option<CologneCode>,
    second: Option<CologneCode>,
    inner: String,
    written: Ghost<Seq<CologneCode>>,
    base: Ghost<Seq<char>>,
}

impl View for CologneString {
    type V = Seq<CologneCode>;

    /// The classes that the sink holds, written or not.
    closed spec fn view(&self) -> Seq<CologneCode> {
        self.written@ + slot_codes(self.first) + slot_codes(self.second)
    }
}

impl CologneString {
    #[verifier::type_invariant]
    spec fn wf(self) -> bool {
        &&& self.inner@ == self.base@ + glyphs(self.written@)
        &&& self.second is Some ==> self.first is Some
        &&& self.written@.len() > 0 ==> self.second is Some
    }

    /// The text that the string held before the sink was made.
    pub closed spec fn base(&self) -> Seq<char> {
        self.base@
    }

    /// A sink that holds nothing and writes to the end of `inner`.
    pub fn new(inner: String) -> (sink: Self)
        ensures
            sink@ == Seq::<CologneCode>::empty(),
            sink.base() == inner@,
    {
        let ghost base = inner@;
        CologneString {
            first: None,
            second: None,
            inner,
            written: Ghost(Seq::empty()),
            base: Ghost(base),
        }
    }

    /// The last class that the sink holds.
    pub fn last(&self) -> (code: Option<CologneCode>)
        ensures
            code == (if self@.len() == 0 {
                None
            } else {
                Some(self@.last())
            }),
    {
        proof {
            use_type_invariant(self);
        }
        match self.second {
            Some(code) => Some(code),
            None => self.first,
        }
    }

    /// Drops the loose end of what the sink holds, writes the rest and gives the
    /// string back.
    pub fn finish(self) -> (text: String)
        ensures
            text@ == self.base() + glyphs(sink_finish(self@)),
    {
        proof {
            use_type_invariant(&self);
        }
        let ghost held = self@;
        let CologneString { first, second, mut inner, written, base } = self;
        match (first, second) {
            (Some(a), Some(CologneCode::Space)) => {
                inner.push(a.as_char());
                proof {
                    assert(sink_finish(held) == written@.push(a));
                    assert(glyphs(written@.push(a)) == glyphs(written@).push(a.glyph()));
                }
            },
            (Some(CologneCode::Space), Some(CologneCode::Class0)) => {
                inner.push(CologneCode::Space.as_char());
                inner.push(CologneCode::Class0.as_char());
                proof {
                    assert(sink_finish(held) == held);
                    assert(held == written@.push(CologneCode::Space).push(CologneCode::Class0));
                    assert(glyphs(held) == glyphs(written@).push(' ').push('0'));
                }
            },
            (Some(a), Some(b)) => {
                inner.push(a.as_char());
                if b != CologneCode::Class0 {
                    inner.push(b.as_char());
                    proof {
                        assert(held == written@.push(a).push(b));
                        assert(sink_finish(held) == held);
                        assert(glyphs(held) == glyphs(written@).push(a.glyph()).push(b.glyph()));
                    }
                } else {
                    proof {
                        assert(held == written@.push(a).push(b));
                        assert(sink_finish(held) == written@.push(a));
                        assert(glyphs(written@.push(a)) == glyphs(written@).push(a.glyph()));
                    }
                }
            },
            (Some(a), None) => {
                if a != CologneCode::Space && a != CologneCode::Class0 {
                    inner.push(a.as_char());
                    proof {
                        assert(held == seq![a]);
                        assert(sink_finish(held) == held);
                        assert(glyphs(held) == glyphs(written@).push(a.glyph()));
                    }
                } else {
                    proof {
                        assert(held == seq![a]);
                        assert(sink_finish(held) == Seq::<CologneCode>::empty());
                        assert(glyphs(Seq::<CologneCode>::empty()) == Seq::<char>::empty());
                    }
                }
            },
            _ => {
                proof {
                    assert(held == Seq::<CologneCode>::empty());
                    assert(glyphs(sink_finish(held)) == Seq::<char>::empty());
                }
            },
        }
        inner
    }
}

/// Pushes `code` to the end of `outbuf` under the rules of a sink.
pub fn cologne_code_push_char(outbuf: &mut CologneString, code: CologneCode)
    ensures
        final(outbuf)@ == sink_push(old(outbuf)@, code),
        final(outbuf).base() == old(outbuf).base(),
{
    proof {
        use_type_invariant(&*outbuf);
    }
    let ghost held = outbuf@;
    let mut taken = CologneString::new(String::new());
    core::mem::swap(outbuf, &mut taken);
    let CologneString { first, second, mut inner, written, base } = taken;
    let last = match second {
        Some(b) => Some(b),
        None => first,
    };
    let mut first = first;
    let mut second = second;
    let mut written = written;
    let repeated = match last {
        Some(l) => l == code,
        None => false,
    };
    if !repeated {
        match (first, second) {
            (Some(a), Some(CologneCode::Class0)) if a != CologneCode::Space => {
                second = Some(code);
                proof {
                    assert(sink_push(held, code) == written@.push(a).push(code));
                }
            },
            (Some(a), Some(b)) => {
                inner.push(a.as_char());
                first = Some(b);
                second = Some(code);
                proof {
                    assert(glyphs(written@.push(a)) == glyphs(written@).push(a.glyph()));
                    assert(sink_push(held, code) == written@.push(a).push(b).push(code));
                    written@ = written@.push(a);
                }
            },
            (Some(a), None) => {
                second = Some(code);
                proof {
                    assert(sink_push(held, code) == seq![a].push(code));
                }
            },
            _ => {
                first = Some(code);
                proof {
                    assert(sink_push(held, code) == seq![code]);
                }
            },
        }
    }
    *outbuf = CologneString { first, second, inner, written, base };
}

/// Pushes the classes of one byte to the end of `outbuf`, in their order.
pub fn cologne_code_push_all_chars(outbuf: &mut CologneString, emitted: &Emitted)
    ensures
        final(outbuf)@ == sink_push_all(old(outbuf)@, emitted@),
        final(outbuf).base() == old(outbuf).base(),
{
    proof {
        emitted.lemma_push_all(outbuf@);
    }
    if let Some(code) = emitted.resolved {
        cologne_code_push_char(outbuf, code);
    }
    if let Some(code) = emitted.first {
        cologne_code_push_char(outbuf, code);
    }
    if let Some(code) = emitted.second {
        cologne_code_push_char(outbuf, code);
    }
}

/// Writes the Cologne phonetics code of `bytes` to the end of `outbuf`, a digit for
/// each class and a blank between two words.
pub fn utf8_to_cologne_codes_string(bytes: &[u8], outbuf: &mut String)
    ensures
        final(outbuf)@ == old(outbuf)@ + glyphs(encoding(bytes@)),
{
    let ghost base = outbuf@;
    let mut taken = String::new();
    core::mem::swap(outbuf, &mut taken);
    let mut sink = CologneString::new(taken);
    let mut resolver = Resolver::new();
    let mut i: usize = 0;
    while i < bytes.len()
        invariant
            i <= bytes.len(),
            resolver@ == window_of(bytes@.take(i as int)),
            sink@ == sink_push_all(Seq::empty(), class_stream(bytes@.take(i as int))),
            sink.base() == base,
        decreases bytes.len() - i,
    {
        let emitted = resolver.feed(bytes[i]);
        cologne_code_push_all_chars(&mut sink, &emitted);
        proof {
            lemma_stream_step(bytes@, i as int);
            lemma_push_all_concat(
                Seq::empty(),
                class_stream(bytes@.take(i as int)),
                emitted@,
            );
        }
        i = i + 1;
    }
    proof {
        assert(bytes@.take(bytes.len() as int) == bytes@);
    }
    *outbuf = sink.finish();
}

} // verus!
