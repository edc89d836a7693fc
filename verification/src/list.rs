//! The list sink: classes kept in a plain `Vec`.

use vstd::prelude::*;
use crate::code::CologneCode;
use crate::resolver::{
    class_stream, encoded_onto, lemma_stream_step, window_of, Emitted, Resolver,
};
use crate::sink::{lemma_push_all_concat, sink_finish, sink_push, sink_push_all};

verus! {

/// Pushes `code` to the end of `outbuf` under the rules of a sink.
pub fn cologne_code_push(outbuf: &mut Vec<CologneCode>, code: CologneCode)
    ensures
        final(outbuf)@ == sink_push(old(outbuf)@, code),
{
    let n = outbuf.len();
    if n > 0 && outbuf[n - 1] == code {
        return;
    }
    if n >= 2 && outbuf[n - 1] == CologneCode::Class0 && outbuf[n - 2] != CologneCode::Space {
        outbuf[n - 1] = code;
    } else {
        outbuf.push(code);
    }
}

/// Drops the loose end of `outbuf`, if it has one.
pub fn cologne_code_finish(outbuf: &mut Vec<CologneCode>)
    ensures
        final(outbuf)@ == sink_finish(old(outbuf)@),
{
    let n = outbuf.len();
    if n == 0 {
        return;
    }
    let last = outbuf[n - 1];
    if n >= 2 && outbuf[n - 2] == CologneCode::Space && last == CologneCode::Class0 {
        return;
    }
    if last == CologneCode::Class0 || last == CologneCode::Space {
        outbuf.pop();
    }
}

/// Pushes the classes of one byte to the end of `outbuf`, in their order.
pub fn cologne_code_push_all(outbuf: &mut Vec<CologneCode>, emitted: &Emitted)
    ensures
        final(outbuf)@ == sink_push_all(old(outbuf)@, emitted@),
{
    proof {
        emitted.lemma_push_all(outbuf@);
    }
    if let Some(code) = emitted.resolved {
        cologne_code_push(outbuf, code);
    }
    if let Some(code) = emitted.first {
        cologne_code_push(outbuf, code);
    }
    if let Some(code) = emitted.second {
        cologne_code_push(outbuf, code);
    }
}

/// Reads the text `bytes` into `outbuf`: its classes are pushed behind what `outbuf`
/// holds, and `outbuf` is finished.
pub fn utf8_to_cologne_codes_vec(bytes: &[u8], outbuf: &mut Vec<CologneCode>)
    ensures
        final(outbuf)@ == encoded_onto(old(outbuf)@, bytes@),
{
    let ghost held = outbuf@;
    let mut resolver = Resolver::new();
    let mut i: usize = 0;
    while i < bytes.len()
        invariant
            i <= bytes.len(),
            resolver@ == window_of(bytes@.take(i as int)),
            outbuf@ == sink_push_all(held, class_stream(bytes@.take(i as int))),
        decreases bytes.len() - i,
    {
        let emitted = resolver.feed(bytes[i]);
        cologne_code_push_all(outbuf, &emitted);
        proof {
            lemma_stream_step(bytes@, i as int);
            lemma_push_all_concat(held, class_stream(bytes@.take(i as int)), emitted@);
        }
        i = i + 1;
    }
    proof {
        assert(bytes@.take(bytes.len() as int) == bytes@);
    }
    cologne_code_finish(outbuf);
}

} // verus!
