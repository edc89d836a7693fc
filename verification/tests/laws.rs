use cologne_codes::CologneCode::{Class0, Class6, Space};
use cologne_codes::{
    utf8_to_cologne_codes_string, utf8_to_cologne_codes_vec, CologneCode, CologneVec,
};

fn list_of(bytes: &[u8]) -> Vec<CologneCode> {
    let mut outbuf = Vec::new();
    utf8_to_cologne_codes_vec(bytes, &mut outbuf);
    outbuf
}

fn packed_of(bytes: &[u8]) -> CologneVec {
    let mut outbuf = CologneVec::new();
    outbuf.read_from_utf8(bytes);
    outbuf
}

fn text_of(bytes: &[u8]) -> String {
    let mut outbuf = String::new();
    utf8_to_cologne_codes_string(bytes, &mut outbuf);
    outbuf
}

fn parsed(text: &str) -> Vec<CologneCode> {
    text.chars()
        .map(|ch| match ch {
            '0' => CologneCode::Class0,
            '1' => CologneCode::Class1,
            '2' => CologneCode::Class2,
            '3' => CologneCode::Class3,
            '4' => CologneCode::Class4,
            '5' => CologneCode::Class5,
            '6' => CologneCode::Class6,
            '7' => CologneCode::Class7,
            '8' => CologneCode::Class8,
            ' ' => CologneCode::Space,
            other => panic!("{:?} is no code", other),
        })
        .collect()
}

/// Some thousand texts: every byte alone, every pair of a few telling bytes, and
/// runs of bytes from a small generator.
fn samples() -> Vec<Vec<u8>> {
    let mut texts: Vec<Vec<u8>> = vec![Vec::new()];
    for b in 0..=255u8 {
        texts.push(vec![b]);
    }
    let telling = b"aehcdptxskzqlr ,AX\xC3\xA4\xB6\xBC\x9F\x80\xFF";
    for a in telling {
        for b in telling {
            texts.push(vec![*a, *b]);
            for c in telling {
                texts.push(vec![*a, *b, *c]);
            }
        }
    }
    let mut state: u32 = 0x2545_F491;
    for run in 0..400usize {
        let mut text = Vec::new();
        for _ in 0..(run % 37) {
            state = state.wrapping_mul(1_103_515_245).wrapping_add(12_345);
            let pick = (state >> 16) as usize;
            text.push(if pick % 5 == 0 { (pick >> 3) as u8 } else { telling[pick % telling.len()] });
        }
        texts.push(text);
    }
    texts
}

#[test]
fn law_sinks_agree() {
    for text in samples() {
        let list = list_of(&text);
        assert_eq!(packed_of(&text).to_codes(), list, "{:?}", text);
        assert_eq!(parsed(&text_of(&text)), list, "{:?}", text);
        assert_eq!(packed_of(&text).len(), list.len(), "{:?}", text);
    }
}

#[test]
fn law_sinks_agree_on_fixtures() {
    for text in [
        "Wikipedia",
        "Müller-Lüdenscheidt",
        "Breschnew",
        "Er kam, Er sah, Er siegte",
        "Hacico",
        "Anhand von Grundlagen",
        "a",
        "a ",
    ] {
        let list = list_of(text.as_bytes());
        assert_eq!(packed_of(text.as_bytes()).to_codes(), list);
        assert_eq!(parsed(&text_of(text.as_bytes())), list);
    }
}

#[test]
fn law_case_of_ascii_letters_does_not_matter() {
    for text in samples() {
        let list = list_of(&text);
        assert_eq!(list_of(&text.to_ascii_uppercase()), list, "{:?}", text);
        assert_eq!(list_of(&text.to_ascii_lowercase()), list, "{:?}", text);
    }
    assert_eq!(list_of(b"AHO AHO"), vec![Class0, Space, Class0]);
    assert_eq!(list_of(b"aho aho"), list_of(b"AHO AHO"));
    assert_eq!(list_of(b"Aho Aho"), list_of(b"AHO AHO"));
    assert_eq!(packed_of(b"aho aho"), packed_of(b"AHO AHO"));
    assert_eq!(packed_of(b"Aho Aho"), packed_of(b"AHO AHO"));
}

#[test]
fn law_case_of_other_letters_matters() {
    assert_ne!(list_of("üb".as_bytes()), list_of("Üb".as_bytes()));
}

#[test]
fn law_text_without_letters_is_empty() {
    let spam = "!\"#$%&'()*+,-./0123456789:;<=>?@[\\]^_`{|}~`";
    assert_eq!(list_of(spam.as_bytes()), vec![]);
    assert_eq!(packed_of(spam.as_bytes()).len(), 0);
    assert_eq!(text_of(spam.as_bytes()), "");
    let no_letters: Vec<u8> =
        (0..=255u8).filter(|b| !b.is_ascii_alphabetic() && *b != 0xC3).collect();
    assert_eq!(no_letters.len(), 203);
    assert_eq!(list_of(&no_letters), vec![]);
    assert_eq!(text_of(&no_letters), "");
    assert_eq!(list_of(b"\n"), vec![]);
}

#[test]
fn law_repeats_are_never_vowels_or_breaks() {
    let mut repeats = 0;
    for text in samples() {
        let list = list_of(&text);
        for pair in list.windows(2) {
            if pair[0] == pair[1] {
                repeats += 1;
                assert!(pair[0] != Class0 && pair[0] != Space, "{:?}", text);
            }
        }
    }
    assert!(repeats > 0);
}

#[test]
fn law_no_repeat_without_echo() {
    assert_eq!(list_of(b"Anhand"), vec![Class0, Class6, Class6]);
    for text in ["Wikipedia", "Breschnew", "Er kam, Er sah, Er siegte", "Hacico", "mm nn mn"] {
        let list = list_of(text.as_bytes());
        assert!(list.windows(2).all(|pair| pair[0] != pair[1]), "{}", text);
    }
}

#[test]
fn law_codes_come_back_from_the_packed_vector() {
    for text in samples() {
        let list = list_of(&text);
        if list != vec![Class0] {
            assert_eq!(CologneVec::from_codes(&list).to_codes(), list, "{:?}", text);
            assert_eq!(CologneVec::from_codes(&list), packed_of(&text), "{:?}", text);
        }
    }
    assert_eq!(list_of(b"a "), vec![Class0]);
    assert_eq!(CologneVec::from_codes(&list_of(b"a ")).to_codes(), vec![]);
}

#[test]
fn law_two_codes_for_a_byte_at_most() {
    for text in samples() {
        assert!(list_of(&text).len() <= 2 * text.len(), "{:?}", text);
    }
    assert_eq!(list_of(b"xxxx").len(), 8);
}
