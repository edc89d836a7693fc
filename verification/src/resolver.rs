//! From letters to classes: the table of the single letters, and the letters whose
//! class depends on their neighbours.

use vstd::prelude::*;
use crate::code::{code_of_tag, nibble_to_cologne, CologneCode};
use crate::letters::{
    letter_index, lowercase_b, transliterated, GERMAN_AE_SECOND_BYTE, GERMAN_OE_SECOND_BYTE,
    GERMAN_SPECIAL_CHAR_FIRST_BYTE, GERMAN_SZ_SECOND_BYTE, GERMAN_UE_SECOND_BYTE, IDX_A, IDX_C,
    IDX_D, IDX_H, IDX_K, IDX_L, IDX_O, IDX_P, IDX_Q, IDX_R, IDX_S, IDX_SPACE, IDX_T, IDX_U,
    IDX_X, IDX_Z, UPPER_A, UPPER_O, UPPER_U, UPPER_Z,
};
use crate::sink::{
    lemma_push_all_concat, lemma_push_all_grows, lemma_push_all_len, lemma_push_all_short,
    sink_finish, sink_push_all, sink_push_slot,
};

verus! {

/// Entry of the table for `C`, whose class depends on the letters around it.
pub const UNCERTAIN_C: u8 = 9;

/// Entry of the table for `D` and `T`, whose class depends on the next letter.
pub const UNCERTAIN_DT: u8 = 10;

/// Entry of the table for `H`, which has no class of its own.
pub const SILENT: u8 = 11;

/// Entry of the table for `P`, whose class depends on the next letter.
pub const UNCERTAIN_P: u8 = 12;

/// Entry of the table for `X`, whose class depends on the letter before it.
pub const UNCERTAIN_X: u8 = 13;

/// Entry of the table for everything that is no letter.
pub const BREAK: u8 = 14;

/// The table of the single letters, by their place in the alphabet: a class from
/// `0` to `8`, or one of `UNCERTAIN_C`, `UNCERTAIN_DT`, `SILENT`, `UNCERTAIN_P`,
/// `UNCERTAIN_X` and `BREAK`.
pub open spec fn character_code(idx: u8) -> u8 {
    match idx {
        0 => 0,  // A
        1 => 1,  // B
        2 => UNCERTAIN_C,
        3 => UNCERTAIN_DT,  // D
        4 => 0,  // E
        5 => 3,  // F
        6 => 4,  // G
        7 => SILENT,  // H
        8 => 0,  // I
        9 => 0,  // J
        10 => 4,  // K
        11 => 5,  // L
        12 => 6,  // M
        13 => 6,  // N
        14 => 0,  // O
        15 => UNCERTAIN_P,
        16 => 4,  // Q
        17 => 7,  // R
        18 => 8,  // S
        19 => UNCERTAIN_DT,  // T
        20 => 0,  // U
        21 => 3,  // V
        22 => 3,  // W
        23 => UNCERTAIN_X,
        24 => 0,  // Y
        25 => 8,  // Z
        _ => BREAK,
    }
}

/// Whether the class of the letter at `idx` is only known once the next letter is:
/// `C`, `D`, `P` and `T`.
pub open spec fn is_deferred(idx: u8) -> bool {
    idx == IDX_C || idx == IDX_D || idx == IDX_P || idx == IDX_T
}

/// Whether `C` is hard in front of the letter at `idx` when it starts a word.
pub open spec fn hardens_leading_c(idx: u8) -> bool {
    idx == IDX_A || idx == IDX_H || idx == IDX_K || idx == IDX_L || idx == IDX_O || idx == IDX_Q
        || idx == IDX_R || idx == IDX_U || idx == IDX_X
}

/// Whether `C` is hard in front of the letter at `idx` inside a word.
pub open spec fn hardens_inner_c(idx: u8) -> bool {
    idx == IDX_A || idx == IDX_H || idx == IDX_K || idx == IDX_O || idx == IDX_Q || idx == IDX_U
        || idx == IDX_X
}

/// The class of the deferred letter `pending`, which stands between `before` and
/// `cur`.
///
/// - `P` is `Class3` in front of `H` and `Class1` elsewhere.
/// - `D` and `T` are `Class8` in front of `C`, `S` and `Z` and `Class2` elsewhere.
/// - `C` at the start of a word is `Class4` in front of `A`, `H`, `K`, `L`, `O`, `Q`,
///   `R`, `U` and `X`. Behind `S` and `Z` it is `Class8`. Elsewhere inside a word it
///   is `Class4` in front of `A`, `H`, `K`, `O`, `Q`, `U` and `X`. In every other
///   place it is `Class8`.
pub open spec fn resolved_code(before: u8, pending: u8, cur: u8) -> CologneCode {
    if pending == IDX_P {
        if cur == IDX_H {
            CologneCode::Class3
        } else {
            CologneCode::Class1
        }
    } else if pending == IDX_D || pending == IDX_T {
        if cur == IDX_C || cur == IDX_S || cur == IDX_Z {
            CologneCode::Class8
        } else {
            CologneCode::Class2
        }
    } else if before == IDX_SPACE && hardens_leading_c(cur) {
        CologneCode::Class4
    } else if before == IDX_S || before == IDX_Z {
        CologneCode::Class8
    } else if hardens_inner_c(cur) {
        CologneCode::Class4
    } else {
        CologneCode::Class8
    }
}

/// The classes that the letter at `cur` gives by itself when it follows the letter
/// at `recent`.
///
/// A letter with a class of its own gives that class and a break gives `Space`. `X`
/// gives `Class8` behind `C`, `K` and `Q`, and `Class4` and `Class8` elsewhere. `H`
/// and the deferred letters give nothing.
pub open spec fn own_codes(recent: u8, cur: u8) -> Seq<CologneCode> {
    let entry = character_code(cur);
    if entry <= 8 {
        seq![code_of_tag(entry)]
    } else if entry == UNCERTAIN_X {
        if recent == IDX_C || recent == IDX_K || recent == IDX_Q {
            seq![CologneCode::Class8]
        } else {
            seq![CologneCode::Class4, CologneCode::Class8]
        }
    } else if entry == BREAK {
        seq![CologneCode::Space]
    } else {
        seq![]
    }
}

/// What is remembered between two bytes of a text.
pub struct Window {
    /// Whether the last byte was `GERMAN_SPECIAL_CHAR_FIRST_BYTE`.
    pub armed: bool,
    /// Place in the alphabet of the letter before the last one, `IDX_SPACE` if there
    /// is none or it was a break.
    pub before: u8,
    /// Place in the alphabet of the last letter, `IDX_SPACE` if there is none or it
    /// was a break.
    pub recent: u8,
}

/// The window at the start of a text.
pub open spec fn window_start() -> Window {
    Window { armed: false, before: IDX_SPACE, recent: IDX_SPACE }
}

/// The window behind `byte`, where `w` is the window in front of it. A byte that is
/// skipped leaves the two letters as they are.
pub open spec fn window_after(w: Window, byte: u8) -> Window {
    match transliterated(w.armed, byte) {
        Some(ascii) => Window { armed: false, before: w.recent, recent: letter_index(ascii) },
        None => Window {
            armed: byte == GERMAN_SPECIAL_CHAR_FIRST_BYTE,
            before: w.before,
            recent: w.recent,
        },
    }
}

/// The classes that `byte` gives, where `w` is the window in front of it: first the
/// class of a deferred letter that stands right before it, then its own.
pub open spec fn codes_for(w: Window, byte: u8) -> Seq<CologneCode> {
    match transliterated(w.armed, byte) {
        Some(ascii) => {
            let cur = letter_index(ascii);
            let own = own_codes(w.recent, cur);
            if is_deferred(w.recent) {
                seq![resolved_code(w.before, w.recent, cur)] + own
            } else {
                own
            }
        },
        None => seq![],
    }
}

/// The window behind the whole of `bytes`.
pub open spec fn window_of(bytes: Seq<u8>) -> Window
    decreases bytes.len(),
{
    if bytes.len() == 0 {
        window_start()
    } else {
        window_after(window_of(bytes.drop_last()), bytes.last())
    }
}

/// The classes of `bytes`, in the order in which a sink receives them. A deferred
/// letter at the very end of `bytes` gives no class.
pub open spec fn class_stream(bytes: Seq<u8>) -> Seq<CologneCode>
    decreases bytes.len(),
{
    if bytes.len() == 0 {
        seq![]
    } else {
        class_stream(bytes.drop_last()) + codes_for(window_of(bytes.drop_last()), bytes.last())
    }
}

/// What a sink that holds `held` holds after it received the classes of `bytes` and
/// was finished.
pub open spec fn encoded_onto(held: Seq<CologneCode>, bytes: Seq<u8>) -> Seq<CologneCode> {
    sink_finish(sink_push_all(held, class_stream(bytes)))
}

/// The Cologne phonetics code of `bytes`.
pub open spec fn encoding(bytes: Seq<u8>) -> Seq<CologneCode> {
    encoded_onto(Seq::empty(), bytes)
}

/// The number of classes that are still to come for the letters seen so far: one
/// where the last letter is deferred.
pub open spec fn owed(w: Window) -> nat {
    if is_deferred(w.recent) {
        1
    } else {
        0
    }
}

/// A byte gives at most two classes more than were owed before it, less what is
/// owed behind it.
pub proof fn lemma_codes_for_len(w: Window, byte: u8)
    ensures
        codes_for(w, byte).len() + owed(window_after(w, byte)) <= owed(w) + 2,
{
}

/// A text gives at most two classes for each of its bytes, less what is owed
/// behind it.
pub proof fn lemma_stream_len(bytes: Seq<u8>)
    ensures
        class_stream(bytes).len() + owed(window_of(bytes)) <= 2 * bytes.len(),
    decreases bytes.len(),
{
    if bytes.len() > 0 {
        lemma_stream_len(bytes.drop_last());
        lemma_codes_for_len(window_of(bytes.drop_last()), bytes.last());
    }
}

/// A sink with room for two codes for each byte of a text has room for the
/// classes of the text.
pub proof fn lemma_stream_fits(held: Seq<CologneCode>, bytes: Seq<u8>)
    ensures
        sink_push_all(held, class_stream(bytes)).len() <= held.len() + 2 * bytes.len(),
{
    lemma_stream_len(bytes);
    lemma_push_all_len(held, class_stream(bytes));
}

/// A sink holds no more after the first `k` bytes of a text than after all of it.
pub proof fn lemma_stream_prefix_fits(held: Seq<CologneCode>, bytes: Seq<u8>, k: int)
    requires
        0 <= k <= bytes.len(),
    ensures
        sink_push_all(held, class_stream(bytes.take(k))).len() <= sink_push_all(
            held,
            class_stream(bytes),
        ).len(),
    decreases bytes.len(),
{
    if k == bytes.len() {
        assert(bytes.take(k) == bytes);
    } else {
        let front = bytes.drop_last();
        assert(front.take(k) == bytes.take(k));
        lemma_stream_prefix_fits(held, front, k);
        let more = codes_for(window_of(front), bytes.last());
        lemma_push_all_concat(held, class_stream(front), more);
        lemma_push_all_grows(sink_push_all(held, class_stream(front)), more);
    }
}

/// Behind one more byte, the window has moved by that byte and the classes of that
/// byte have followed those of the bytes before it.
pub proof fn lemma_stream_step(bytes: Seq<u8>, i: int)
    requires
        0 <= i < bytes.len(),
    ensures
        window_of(bytes.take(i + 1)) == window_after(window_of(bytes.take(i)), bytes[i]),
        class_stream(bytes.take(i + 1)) == class_stream(bytes.take(i)) + codes_for(
            window_of(bytes.take(i)),
            bytes[i],
        ),
{
    assert(bytes.take(i + 1).drop_last() == bytes.take(i));
    assert(bytes.take(i + 1).last() == bytes[i]);
}

proof fn lemma_push_slot(held: Seq<CologneCode>, slot: Option<CologneCode>)
    ensures
        sink_push_all(held, slot_codes(slot)) == sink_push_slot(held, slot),
{
    match slot {
        Some(code) => {
            lemma_push_all_short(held, code);
        },
        None => {
            lemma_push_all_short(held, CologneCode::Class0);
        },
    }
}

/// The classes that one byte gave: at most three.
pub struct Emitted {
    /// The class of the deferred letter right before the byte.
    pub resolved: Option<CologneCode>,
    /// The first class of the byte itself.
    pub first: Option<CologneCode>,
    /// The second class of the byte itself.
    pub second: Option<CologneCode>,
}

/// The codes of `slot`: one or none.
pub open spec fn slot_codes(slot: Option<CologneCode>) -> Seq<CologneCode> {
    match slot {
        Some(code) => seq![code],
        None => seq![],
    }
}

impl View for Emitted {
    type V = Seq<CologneCode>;

    open spec fn view(&self) -> Seq<CologneCode> {
        slot_codes(self.resolved) + slot_codes(self.first) + slot_codes(self.second)
    }
}

/// The state machine that turns the bytes of one text into classes.
pub struct Resolver {
    utf8: bool,
    before: u8,
    recent: u8,
    prev_uncertain: bool,
}

impl View for Resolver {
    type V = Window;

    closed spec fn view(&self) -> Window {
        Window { armed: self.utf8, before: self.before, recent: self.recent }
    }
}

/// The entry of the table for the letter at `idx`.
pub fn character_to_code(idx: u8) -> (entry: u8)
    ensures
        entry == character_code(idx),
{
    match idx {
        0 => 0,
        1 => 1,
        2 => UNCERTAIN_C,
        3 => UNCERTAIN_DT,
        4 => 0,
        5 => 3,
        6 => 4,
        7 => SILENT,
        8 => 0,
        9 => 0,
        10 => 4,
        11 => 5,
        12 => 6,
        13 => 6,
        14 => 0,
        15 => UNCERTAIN_P,
        16 => 4,
        17 => 7,
        18 => 8,
        19 => UNCERTAIN_DT,
        20 => 0,
        21 => 3,
        22 => 3,
        23 => UNCERTAIN_X,
        24 => 0,
        25 => 8,
        _ => BREAK,
    }
}

/// The class of the deferred letter at `pending`, which stands between the letters
/// at `before` and `cur`.
pub fn resolve(before: u8, pending: u8, cur: u8) -> (code: CologneCode)
    requires
        is_deferred(pending),
    ensures
        code == resolved_code(before, pending, cur),
{
    if pending == IDX_P {
        if cur == IDX_H {
            CologneCode::Class3
        } else {
            CologneCode::Class1
        }
    } else if pending == IDX_D || pending == IDX_T {
        if cur == IDX_C || cur == IDX_S || cur == IDX_Z {
            CologneCode::Class8
        } else {
            CologneCode::Class2
        }
    } else {
        let hard = cur == IDX_A || cur == IDX_H || cur == IDX_K || cur == IDX_O || cur == IDX_Q
            || cur == IDX_U || cur == IDX_X;
        if before == IDX_SPACE {
            if hard || cur == IDX_L || cur == IDX_R {
                CologneCode::Class4
            } else {
                CologneCode::Class8
            }
        } else if before == IDX_S || before == IDX_Z {
            CologneCode::Class8
        } else if hard {
            CologneCode::Class4
        } else {
            CologneCode::Class8
        }
    }
}

impl Emitted {
    /// Pushing the classes of one byte is pushing what its three slots hold, in
    /// their order.
    pub proof fn lemma_push_all(self, held: Seq<CologneCode>)
        ensures
            sink_push_all(held, self@) == sink_push_slot(
                sink_push_slot(sink_push_slot(held, self.resolved), self.first),
                self.second,
            ),
    {
        let a = slot_codes(self.resolved);
        let b = slot_codes(self.first);
        let c = slot_codes(self.second);
        lemma_push_all_concat(held, a + b, c);
        lemma_push_all_concat(held, a, b);
        lemma_push_slot(held, self.resolved);
        lemma_push_slot(sink_push_all(held, a), self.first);
        lemma_push_slot(sink_push_all(held, a + b), self.second);
    }

    /// No class at all.
    pub fn nothing() -> (out: Self)
        ensures
            out@ == Seq::<CologneCode>::empty(),
    {
        Emitted { resolved: None, first: None, second: None }
    }
}

impl Resolver {
    #[verifier::type_invariant]
    spec fn wf(self) -> bool {
        self.prev_uncertain == is_deferred(self.recent)
    }

    /// The state at the start of a text.
    pub fn new() -> (resolver: Self)
        ensures
            resolver@ == window_start(),
    {
        Resolver { utf8: false, before: IDX_SPACE, recent: IDX_SPACE, prev_uncertain: false }
    }

    /// Takes the next byte of the text and returns the classes that it gives.
    pub fn feed(&mut self, byte: u8) -> (out: Emitted)
        ensures
            final(self)@ == window_after(old(self)@, byte),
            out@ == codes_for(old(self)@, byte),
    {
        proof {
            use_type_invariant(&*self);
        }
        let armed = self.utf8;
        let mut b = byte;
        if b > 0x7F {
            self.utf8 = b == GERMAN_SPECIAL_CHAR_FIRST_BYTE;
            if !armed {
                return Emitted::nothing();
            }
            if b == GERMAN_AE_SECOND_BYTE {
                b = UPPER_A;
            } else if b == GERMAN_OE_SECOND_BYTE {
                b = UPPER_O;
            } else if b == GERMAN_UE_SECOND_BYTE {
                b = UPPER_U;
            } else if b == GERMAN_SZ_SECOND_BYTE {
                b = UPPER_Z;
            } else {
                return Emitted::nothing();
            }
        }
        let cur = lowercase_b(b);
        let resolved = if self.prev_uncertain {
            Some(resolve(self.before, self.recent, cur))
        } else {
            None
        };
        let entry = character_to_code(cur);
        let mut first: Option<CologneCode> = None;
        let mut second: Option<CologneCode> = None;
        let mut uncertain = false;
        if entry <= 8 {
            first = Some(nibble_to_cologne(entry));
        } else if entry == UNCERTAIN_X {
            if self.recent == IDX_C || self.recent == IDX_K || self.recent == IDX_Q {
                first = Some(CologneCode::Class8);
            } else {
                first = Some(CologneCode::Class4);
                second = Some(CologneCode::Class8);
            }
        } else if entry == SILENT {
        } else if entry == BREAK {
            first = Some(CologneCode::Space);
        } else {
            uncertain = true;
        }
        *self = Resolver { utf8: false, before: self.recent, recent: cur, prev_uncertain: uncertain };
        let out = Emitted { resolved, first, second };
        proof {
            assert(out@ =~= codes_for(old(self)@, byte));
        }
        out
    }
}

} // verus!
