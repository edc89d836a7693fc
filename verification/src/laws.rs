//! What holds of every code, whatever the text.

use vstd::prelude::*;
use crate::code::{glyphs, CologneCode};
use crate::letters::{letter_index, GERMAN_SPECIAL_CHAR_FIRST_BYTE, IDX_SPACE};
use crate::resolver::{class_stream, encoded_onto, encoding, window_of, window_start};
use crate::sink::{
    echo_free, lemma_finish_repeat, lemma_finish_twice, lemma_push_all_repeat,
    lemma_push_all_settled, no_repeat, repeats_at, sink_finish, sink_push, sink_push_all,
};

verus! {

/// Whether `a` and `b` are the same byte, or the same ASCII letter in whatever case.
pub open spec fn same_letter(a: u8, b: u8) -> bool {
    a == b || (letter_index(a) != IDX_SPACE && letter_index(a) == letter_index(b))
}

/// Whether `a` and `b` are the same text but for the case of their ASCII letters.
pub open spec fn same_up_to_case(a: Seq<u8>, b: Seq<u8>) -> bool {
    &&& a.len() == b.len()
    &&& forall|i: int| 0 <= i < a.len() ==> same_letter(#[trigger] a[i], b[i])
}

/// Two texts that differ only in the case of their ASCII letters give the same
/// classes.
pub proof fn lemma_case_stream(a: Seq<u8>, b: Seq<u8>)
    requires
        same_up_to_case(a, b),
    ensures
        window_of(a) == window_of(b),
        class_stream(a) == class_stream(b),
    decreases a.len(),
{
    if a.len() > 0 {
        assert(same_letter(a[a.len() - 1], b[a.len() - 1]));
        assert(same_up_to_case(a.drop_last(), b.drop_last())) by {
            assert forall|i: int| 0 <= i < a.len() - 1 implies same_letter(
                #[trigger] a.drop_last()[i],
                b.drop_last()[i],
            ) by {
                assert(same_letter(a[i], b[i]));
            }
        }
        lemma_case_stream(a.drop_last(), b.drop_last());
    }
}

/// The case of its ASCII letters does not change the code of a text: two texts
/// that differ in nothing else have the same code, in every sink.
pub proof fn lemma_case_insensitive(a: Seq<u8>, b: Seq<u8>, held: Seq<CologneCode>)
    requires
        same_up_to_case(a, b),
    ensures
        encoding(a) == encoding(b),
        encoded_onto(held, a) == encoded_onto(held, b),
{
    lemma_case_stream(a, b);
}

/// Whether no byte of `bytes` is an ASCII letter or the first byte of a German
/// letter outside ASCII.
pub open spec fn is_letter_free(bytes: Seq<u8>) -> bool {
    forall|i: int|
        0 <= i < bytes.len() ==> letter_index(#[trigger] bytes[i]) == IDX_SPACE && bytes[i]
            != GERMAN_SPECIAL_CHAR_FIRST_BYTE
}

/// Whether every code of `codes` is a break.
pub open spec fn is_all_breaks(codes: Seq<CologneCode>) -> bool {
    forall|k: int| 0 <= k < codes.len() ==> #[trigger] codes[k] == CologneCode::Space
}

/// A text without letters gives breaks and nothing else.
pub proof fn lemma_letter_free_stream(bytes: Seq<u8>)
    requires
        is_letter_free(bytes),
    ensures
        window_of(bytes) == window_start(),
        is_all_breaks(class_stream(bytes)),
    decreases bytes.len(),
{
    if bytes.len() > 0 {
        let front = bytes.drop_last();
        assert(is_letter_free(front)) by {
            assert forall|i: int| 0 <= i < front.len() implies letter_index(#[trigger] front[i])
                == IDX_SPACE && front[i] != GERMAN_SPECIAL_CHAR_FIRST_BYTE by {
                assert(front[i] == bytes[i]);
            }
        }
        lemma_letter_free_stream(front);
        assert(letter_index(bytes[bytes.len() - 1]) == IDX_SPACE);
    }
}

/// An empty sink that receives breaks and nothing else holds at most one break.
pub proof fn lemma_breaks_collapse(codes: Seq<CologneCode>)
    requires
        is_all_breaks(codes),
    ensures
        sink_push_all(Seq::empty(), codes) == (if codes.len() == 0 {
            Seq::<CologneCode>::empty()
        } else {
            seq![CologneCode::Space]
        }),
    decreases codes.len(),
{
    if codes.len() > 0 {
        let front = codes.drop_last();
        assert(is_all_breaks(front)) by {
            assert forall|k: int| 0 <= k < front.len() implies #[trigger] front[k]
                == CologneCode::Space by {
                assert(front[k] == codes[k]);
            }
        }
        lemma_breaks_collapse(front);
        assert(codes.last() == CologneCode::Space);
        if front.len() == 0 {
            assert(sink_push(Seq::empty(), CologneCode::Space) == seq![CologneCode::Space]);
        }
    }
}

/// A text without letters has the empty code.
pub proof fn lemma_letter_free_is_empty(bytes: Seq<u8>)
    requires
        is_letter_free(bytes),
    ensures
        encoding(bytes) == Seq::<CologneCode>::empty(),
{
    lemma_letter_free_stream(bytes);
    lemma_breaks_collapse(class_stream(bytes));
    assert(seq![CologneCode::Space].drop_last() == Seq::<CologneCode>::empty());
}

/// The code of a text holds a class twice in a row exactly where one of its
/// classes echoed: it arrived behind a `Class0` that stood behind its own copy, as
/// the second `N` of `Anhand` does. The code of every other text holds no class
/// twice in a row.
pub proof fn lemma_repeats_are_echoes(bytes: Seq<u8>)
    ensures
        no_repeat(encoding(bytes)) <==> echo_free(Seq::empty(), class_stream(bytes)),
{
    let empty = Seq::<CologneCode>::empty();
    lemma_push_all_repeat(empty, class_stream(bytes));
    lemma_push_all_settled(empty, class_stream(bytes));
    lemma_finish_repeat(sink_push_all(empty, class_stream(bytes)));
}

/// Neither `Class0` nor a break stands twice in a row in the code of a text.
pub proof fn lemma_no_double_vowel_or_break(bytes: Seq<u8>, i: int)
    requires
        0 <= i < encoding(bytes).len() - 1,
        repeats_at(encoding(bytes), i),
    ensures
        encoding(bytes)[i] != CologneCode::Class0,
        encoding(bytes)[i] != CologneCode::Space,
{
    let empty = Seq::<CologneCode>::empty();
    let held = sink_push_all(empty, class_stream(bytes));
    lemma_push_all_settled(empty, class_stream(bytes));
    assert(repeats_at(held, i));
}

/// The code of a text is already finished: finishing it once more, as
/// `CologneVec::from_codes` does, gives it back as it is. Only the code that is a
/// lone `Class0`, as that of the text `a `, loses its `Class0`.
pub proof fn lemma_code_is_finished(bytes: Seq<u8>)
    requires
        encoding(bytes) != seq![CologneCode::Class0],
    ensures
        sink_finish(encoding(bytes)) == encoding(bytes),
{
    let empty = Seq::<CologneCode>::empty();
    lemma_push_all_settled(empty, class_stream(bytes));
    lemma_finish_twice(sink_push_all(empty, class_stream(bytes)));
}

/// Two lists of codes that are printed alike are the same list.
pub proof fn lemma_glyphs_injective(a: Seq<CologneCode>, b: Seq<CologneCode>)
    requires
        glyphs(a) == glyphs(b),
    ensures
        a == b,
{
    assert(a.len() == glyphs(a).len());
    assert(b.len() == glyphs(b).len());
    assert forall|i: int| 0 <= i < a.len() implies a[i] == b[i] by {
        assert(glyphs(a)[i] == a[i].glyph());
        assert(glyphs(b)[i] == b[i].glyph());
    }
    assert(a =~= b);
}

/// The three sinks agree: what an empty list, an empty packed vector and an empty
/// string come to hold for one text is the same list of codes, and nothing but
/// that list is printed as the string.
pub proof fn lemma_sinks_agree(
    bytes: Seq<u8>,
    list: Seq<CologneCode>,
    packed: Seq<CologneCode>,
    text: Seq<char>,
    other: Seq<CologneCode>,
)
    requires
        list == encoded_onto(Seq::empty(), bytes),
        packed == encoded_onto(Seq::empty(), bytes),
        text == Seq::<char>::empty() + glyphs(encoding(bytes)),
    ensures
        list == packed,
        text == glyphs(list),
        glyphs(other) == text ==> other == list,
{
    assert(Seq::<char>::empty() + glyphs(encoding(bytes)) =~= glyphs(encoding(bytes)));
    if glyphs(other) == text {
        lemma_glyphs_injective(other, list);
    }
}

} // verus!
