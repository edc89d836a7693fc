//! The rules that every sink applies to the classes it receives.
//!
//! A sink never stores the same class twice in a row, overwrites a vowel class that
//! turned out to stand inside a word, and drops a vowel class or a break that is left
//! dangling at the end.

use vstd::prelude::*;
use crate::code::CologneCode;

verus! {

/// What a sink holds after `code` arrives at a sink that holds `held`.
///
/// - A code equal to the last one held is ignored.
/// - Otherwise, if the last one held is a `Class0` with something other than a break
///   in front of it, the new code takes its place.
/// - Otherwise the new code is appended.
pub open spec fn sink_push(held: Seq<CologneCode>, code: CologneCode) -> Seq<CologneCode> {
    let n = held.len() as int;
    if n > 0 && held[n - 1] == code {
        held
    } else if n >= 2 && held[n - 1] == CologneCode::Class0 && held[n - 2] != CologneCode::Space {
        held.update(n - 1, code)
    } else {
        held.push(code)
    }
}

/// What a sink holds after the codes of `codes` arrived one after the other.
pub open spec fn sink_push_all(held: Seq<CologneCode>, codes: Seq<CologneCode>) -> Seq<
    CologneCode,
>
    decreases codes.len(),
{
    if codes.len() == 0 {
        held
    } else {
        sink_push(sink_push_all(held, codes.drop_last()), codes.last())
    }
}

/// What a sink holds after the code of `slot` arrived, if there is one.
pub open spec fn sink_push_slot(held: Seq<CologneCode>, slot: Option<CologneCode>) -> Seq<
    CologneCode,
> {
    match slot {
        Some(code) => sink_push(held, code),
        None => held,
    }
}

/// Whether the last code of `held` is dropped when the sink is finished: it is a
/// `Class0` or a break, and `held` does not end in a break followed by `Class0`.
pub open spec fn has_loose_end(held: Seq<CologneCode>) -> bool {
    let n = held.len() as int;
    &&& n > 0
    &&& held[n - 1] == CologneCode::Class0 || held[n - 1] == CologneCode::Space
    &&& !(n >= 2 && held[n - 2] == CologneCode::Space && held[n - 1] == CologneCode::Class0)
}

/// What a sink holds once it is finished: `held` without its loose end.
pub open spec fn sink_finish(held: Seq<CologneCode>) -> Seq<CologneCode> {
    if has_loose_end(held) {
        held.drop_last()
    } else {
        held
    }
}

/// A sink grows by at most one code for each code that arrives.
pub proof fn lemma_push_all_len(held: Seq<CologneCode>, codes: Seq<CologneCode>)
    ensures
        sink_push_all(held, codes).len() <= held.len() + codes.len(),
    decreases codes.len(),
{
    if codes.len() > 0 {
        lemma_push_all_len(held, codes.drop_last());
    }
}

/// A sink never shrinks while codes arrive.
pub proof fn lemma_push_all_grows(held: Seq<CologneCode>, codes: Seq<CologneCode>)
    ensures
        held.len() <= sink_push_all(held, codes).len(),
    decreases codes.len(),
{
    if codes.len() > 0 {
        lemma_push_all_grows(held, codes.drop_last());
    }
}

/// Pushing a run of codes and then another run is pushing both runs at once.
pub proof fn lemma_push_all_concat(
    held: Seq<CologneCode>,
    first: Seq<CologneCode>,
    second: Seq<CologneCode>,
)
    ensures
        sink_push_all(held, first + second) == sink_push_all(
            sink_push_all(held, first),
            second,
        ),
    decreases second.len(),
{
    if second.len() == 0 {
        assert(first + second == first);
    } else {
        assert((first + second).drop_last() == first + second.drop_last());
        lemma_push_all_concat(held, first, second.drop_last());
    }
}

/// Pushing no code changes nothing, and pushing one code is one `sink_push`.
pub proof fn lemma_push_all_short(held: Seq<CologneCode>, code: CologneCode)
    ensures
        sink_push_all(held, Seq::empty()) == held,
        sink_push_all(held, seq![code]) == sink_push(held, code),
{
    assert(seq![code].drop_last() == Seq::<CologneCode>::empty());
    reveal_with_fuel(sink_push_all, 2);
}

/// Whether the code at place `i` of `held` stands once more right behind it.
pub open spec fn repeats_at(held: Seq<CologneCode>, i: int) -> bool {
    held[i] == held[i + 1]
}

/// Whether the code at place `i` of `held` is a `Class0` without a break in front
/// of it.
pub open spec fn is_stray_at(held: Seq<CologneCode>, i: int) -> bool {
    held[i] == CologneCode::Class0 && held[i - 1] != CologneCode::Space
}

/// What holds of everything that a sink can come to hold when it starts empty:
/// neither `Class0` nor a break stands twice in a row, and a `Class0` with a code
/// on either side of it has a break in front of it.
pub open spec fn is_settled(held: Seq<CologneCode>) -> bool {
    &&& forall|i: int|
        0 <= i < held.len() - 1 && #[trigger] repeats_at(held, i) ==> held[i]
            != CologneCode::Class0 && held[i] != CologneCode::Space
    &&& forall|i: int| 1 <= i < held.len() - 1 ==> !#[trigger] is_stray_at(held, i)
}

/// A settled sink is settled after one more code.
pub proof fn lemma_push_settled(held: Seq<CologneCode>, code: CologneCode)
    requires
        is_settled(held),
    ensures
        is_settled(sink_push(held, code)),
{
    let after = sink_push(held, code);
    let n = held.len() as int;
    let ignored = n > 0 && held[n - 1] == code;
    let overwritten = !ignored && n >= 2 && held[n - 1] == CologneCode::Class0 && held[n - 2]
        != CologneCode::Space;
    assert forall|i: int| 0 <= i < after.len() - 1 && #[trigger] repeats_at(after, i) implies after[i]
        != CologneCode::Class0 && after[i] != CologneCode::Space by {
        if ignored {
            assert(repeats_at(held, i));
        } else if overwritten {
            if i + 1 < n - 1 {
                assert(repeats_at(held, i));
            }
        } else {
            if i < n - 1 {
                assert(repeats_at(held, i));
            }
        }
    }
    assert forall|i: int| 1 <= i < after.len() - 1 implies !#[trigger] is_stray_at(after, i) by {
        if i < n - 1 {
            assert(!is_stray_at(held, i));
        }
    }
}

/// A settled sink is settled after any run of codes.
pub proof fn lemma_push_all_settled(held: Seq<CologneCode>, codes: Seq<CologneCode>)
    requires
        is_settled(held),
    ensures
        is_settled(sink_push_all(held, codes)),
    decreases codes.len(),
{
    if codes.len() > 0 {
        lemma_push_all_settled(held, codes.drop_last());
        lemma_push_settled(sink_push_all(held, codes.drop_last()), codes.last());
    }
}

/// Finishing a settled sink twice is finishing it once, unless a lone `Class0` is
/// left after the first time.
pub proof fn lemma_finish_twice(held: Seq<CologneCode>)
    requires
        is_settled(held),
        sink_finish(held) != seq![CologneCode::Class0],
    ensures
        sink_finish(sink_finish(held)) == sink_finish(held),
{
    let n = held.len() as int;
    if has_loose_end(held) {
        let once = held.drop_last();
        if has_loose_end(once) {
            assert(once[n - 2] == held[n - 2]);
            if held[n - 2] == CologneCode::Space {
                assert(!repeats_at(held, n - 2));
            } else {
                assert(held[n - 2] == CologneCode::Class0);
                assert(!repeats_at(held, n - 2));
                if n >= 3 {
                    assert(!is_stray_at(held, n - 2));
                    assert(once[n - 3] == held[n - 3]);
                } else {
                    assert(once =~= seq![CologneCode::Class0]);
                }
            }
        }
    }
}

/// Whether no code of `held` stands twice in a row.
pub open spec fn no_repeat(held: Seq<CologneCode>) -> bool {
    forall|i: int| 0 <= i < held.len() - 1 ==> !#[trigger] repeats_at(held, i)
}

/// Whether `code` arrives behind a `Class0` that stands behind a copy of `code`:
/// the sink then overwrites the `Class0` and holds `code` twice in a row.
pub open spec fn echoes(held: Seq<CologneCode>, code: CologneCode) -> bool {
    let n = held.len() as int;
    &&& n >= 2
    &&& held[n - 1] == CologneCode::Class0
    &&& held[n - 2] == code
    &&& code != CologneCode::Space
}

/// Whether no code of `codes` echoes when `codes` arrive, one after the other, at
/// a sink that holds `held`.
pub open spec fn echo_free(held: Seq<CologneCode>, codes: Seq<CologneCode>) -> bool
    decreases codes.len(),
{
    codes.len() == 0 || (echo_free(held, codes.drop_last()) && !echoes(
        sink_push_all(held, codes.drop_last()),
        codes.last(),
    ))
}

/// After one more code a settled sink holds no code twice in a row exactly if it
/// held none so before and the code does not echo.
pub proof fn lemma_push_repeat(held: Seq<CologneCode>, code: CologneCode)
    requires
        is_settled(held),
    ensures
        no_repeat(sink_push(held, code)) <==> no_repeat(held) && !echoes(held, code),
{
    let after = sink_push(held, code);
    let n = held.len() as int;
    let ignored = n > 0 && held[n - 1] == code;
    let overwritten = !ignored && n >= 2 && held[n - 1] == CologneCode::Class0 && held[n - 2]
        != CologneCode::Space;
    if no_repeat(held) && !echoes(held, code) {
        assert forall|i: int| 0 <= i < after.len() - 1 implies !#[trigger] repeats_at(after, i) by {
            if ignored {
                assert(!repeats_at(held, i));
            } else if overwritten {
                if i + 1 < n - 1 {
                    assert(!repeats_at(held, i));
                }
            } else {
                if i < n - 1 {
                    assert(!repeats_at(held, i));
                }
            }
        }
    }
    if !no_repeat(held) {
        let i = choose|i: int| 0 <= i < held.len() - 1 && #[trigger] repeats_at(held, i);
        assert(held[i] != CologneCode::Class0);
        assert(repeats_at(after, i));
    }
    if echoes(held, code) {
        assert(repeats_at(held, n - 2) ==> held[n - 2] != CologneCode::Class0);
        assert(repeats_at(after, n - 2));
    }
}

/// After a run of codes a settled sink holds no code twice in a row exactly if it
/// held none so before and no code of the run echoes.
pub proof fn lemma_push_all_repeat(held: Seq<CologneCode>, codes: Seq<CologneCode>)
    requires
        is_settled(held),
    ensures
        no_repeat(sink_push_all(held, codes)) <==> no_repeat(held) && echo_free(held, codes),
    decreases codes.len(),
{
    if codes.len() > 0 {
        lemma_push_all_repeat(held, codes.drop_last());
        lemma_push_all_settled(held, codes.drop_last());
        lemma_push_repeat(sink_push_all(held, codes.drop_last()), codes.last());
    }
}

/// Finishing a settled sink neither makes nor removes a code that stands twice in
/// a row.
pub proof fn lemma_finish_repeat(held: Seq<CologneCode>)
    requires
        is_settled(held),
    ensures
        no_repeat(sink_finish(held)) <==> no_repeat(held),
{
    let after = sink_finish(held);
    if no_repeat(held) {
        assert forall|i: int| 0 <= i < after.len() - 1 implies !#[trigger] repeats_at(after, i) by {
            assert(!repeats_at(held, i));
        }
    } else {
        let i = choose|i: int| 0 <= i < held.len() - 1 && #[trigger] repeats_at(held, i);
        assert(held[i] != CologneCode::Class0 && held[i] != CologneCode::Space);
        assert(repeats_at(after, i));
    }
}

} // verus!
