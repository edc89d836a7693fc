use cologne_codes::utf8_to_cologne_codes_string;

#[test]
fn string_wikipedia() {
    let mut outbuf = String::new();
    utf8_to_cologne_codes_string(b"Wikipedia", &mut outbuf);
    assert_eq!(outbuf, "3412",)
}

#[test]
fn string_mueller_luedenscheidt() {
    let mut outbuf = String::new();
    utf8_to_cologne_codes_string("Müller-Lüdenscheidt".as_bytes(), &mut outbuf);
    assert_eq!(outbuf, "657 52682",)
}

#[test]
fn string_breschnew() {
    let mut outbuf = String::new();
    utf8_to_cologne_codes_string("Breschnew".as_bytes(), &mut outbuf);
    assert_eq!(outbuf, "17863",)
}

#[test]
fn string_veni_vidi_vici() {
    let mut outbuf = String::new();
    utf8_to_cologne_codes_string("Er kam, Er sah, Er siegte".as_bytes(), &mut outbuf);
    assert_eq!(outbuf, "07 46 07 8 07 842")
}

#[test]
fn string_special_char_spam() {
    let mut outbuf = String::new();
    utf8_to_cologne_codes_string(
        "!\"#$%&'()*+,-./0123456789:;<=>?@[\\]^_`{|}~`".as_bytes(),
        &mut outbuf,
    );
    assert_eq!(outbuf, "")
}

#[test]
fn string_special_char_spam2() {
    let mut outbuf = String::new();
    utf8_to_cologne_codes_string(
        "a!\"#$%&'()*+,-./0123456789:;<=>?@[\\]^_`{|}~a`".as_bytes(),
        &mut outbuf,
    );
    assert_eq!(outbuf, "0 0",)
}

#[test]
fn string_grundlagen() {
    let mut outbuf = String::new();
    utf8_to_cologne_codes_string("Anhand von Grundlagen".as_bytes(), &mut outbuf);
    assert_eq!(outbuf, "0662 36 4762546",)
}

#[test]
fn string_hacico() {
    let mut outbuf = String::new();
    utf8_to_cologne_codes_string("Hacico".as_bytes(), &mut outbuf);
    assert_eq!(outbuf, "084",)
}

#[test]
fn string_aho_aho() {
    let mut outbuf = String::new();
    utf8_to_cologne_codes_string("aho aho".as_bytes(), &mut outbuf);
    assert_eq!(outbuf, "0 0",)
}

#[test]
fn string_aho_aho_aho() {
    let mut outbuf = String::new();
    utf8_to_cologne_codes_string("aho aho aho".as_bytes(), &mut outbuf);
    assert_eq!(outbuf, "0 0 0",)
}

#[test]
fn string_aro_aro() {
    let mut outbuf = String::new();
    utf8_to_cologne_codes_string("aro aro".as_bytes(), &mut outbuf);
    assert_eq!(outbuf, "07 07",)
}

#[test]
fn string_alphabet() {
    let mut outbuf = String::new();
    utf8_to_cologne_codes_string(
        "A B C D E F G H I J K L M N O P Q R S T U V W X Y Z".as_bytes(),
        &mut outbuf,
    );
    let resstr = "0 1 8 2 0 3 4 0 0 4 5 6 6 0 1 4 7 8 2 0 3 3 48 0 8";
    assert_eq!(outbuf, resstr);
    let mut outbuf_little = String::new();
    utf8_to_cologne_codes_string(
        "a b c d e f g h i j k l m n o p q r s t u v w x y z".as_bytes(),
        &mut outbuf_little,
    );
    assert_eq!(outbuf_little, resstr);
    assert_eq!(outbuf_little, outbuf);
}

fn text_of(bytes: &[u8]) -> String {
    let mut outbuf = String::new();
    utf8_to_cologne_codes_string(bytes, &mut outbuf);
    outbuf
}

#[test]
fn string_empty_input() {
    assert_eq!(text_of(b""), "");
}

#[test]
fn string_is_appended_to_what_is_there() {
    let mut outbuf = String::from("code: ");
    utf8_to_cologne_codes_string(b"Wikipedia", &mut outbuf);
    assert_eq!(outbuf, "code: 3412");
    utf8_to_cologne_codes_string(b"Breschnew", &mut outbuf);
    assert_eq!(outbuf, "code: 341217863");
}

#[test]
fn string_leading_vowel_is_kept() {
    assert_eq!(text_of(b"Er"), "07");
    assert_eq!(text_of(b"Otto"), "02");
    assert_eq!(text_of(b"Amt Ulm"), "062 056");
}

#[test]
fn string_vowel_inside_a_word_is_dropped() {
    assert_eq!(text_of(b"Lob"), "51");
    assert_eq!(text_of(b"Rabe"), "71");
    assert_eq!(text_of(b"Meier"), "67");
}

#[test]
fn string_lone_vowel_is_dropped() {
    assert_eq!(text_of(b"a"), "");
    assert_eq!(text_of(b"a "), "0");
    assert_eq!(text_of(b" a"), " 0");
    assert_eq!(text_of(b"b a"), "1 0");
}

#[test]
fn string_breaks_collapse() {
    assert_eq!(text_of(b"b  ,;  b"), "1 1");
    assert_eq!(text_of(b"   b   "), " 1");
}

#[test]
fn string_silent_h() {
    assert_eq!(text_of(b"h"), "");
    assert_eq!(text_of(b"Hahn"), "06");
    assert_eq!(text_of(b"Lehrer"), "577");
}

#[test]
fn string_p_in_front_of_h() {
    assert_eq!(text_of(b"Phil"), "35");
    assert_eq!(text_of(b"Pa"), "1");
    assert_eq!(text_of(b"Opa"), "01");
}

#[test]
fn string_d_and_t_in_front_of_sibilants() {
    assert_eq!(text_of(b"tz"), "8");
    assert_eq!(text_of(b"ds"), "8");
    assert_eq!(text_of(b"tc"), "8");
    assert_eq!(text_of(b"Da"), "2");
    assert_eq!(text_of(b"Tor"), "27");
    assert_eq!(text_of(b"Katze"), "48");
}

#[test]
fn string_c_at_the_start_of_a_word() {
    assert_eq!(text_of(b"Ca"), "4");
    assert_eq!(text_of(b"Cl"), "45");
    assert_eq!(text_of(b"Cr"), "47");
    assert_eq!(text_of(b"ce"), "8");
    assert_eq!(text_of(b"ci"), "8");
    assert_eq!(text_of(b"b cl"), "1 45");
}

#[test]
fn string_c_inside_a_word() {
    assert_eq!(text_of(b"ack"), "04");
    assert_eq!(text_of(b"acl"), "085");
    assert_eq!(text_of(b"acr"), "087");
    assert_eq!(text_of(b"ace"), "08");
    assert_eq!(text_of(b"oco"), "04");
}

#[test]
fn string_c_behind_s_and_z() {
    assert_eq!(text_of(b"sca"), "8");
    assert_eq!(text_of(b"ska"), "84");
    assert_eq!(text_of(b"zca"), "8");
    assert_eq!(text_of(b"Fisch"), "38");
}

#[test]
fn string_x() {
    assert_eq!(text_of(b"x"), "48");
    assert_eq!(text_of(b"ax"), "048");
    assert_eq!(text_of(b"kx"), "48");
    assert_eq!(text_of(b"qx"), "48");
    assert_eq!(text_of(b"cx"), "48");
    assert_eq!(text_of(b"lx"), "548");
    assert_eq!(text_of(b"Max"), "648");
}

#[test]
fn string_deferred_letter_at_the_end_is_lost() {
    assert_eq!(text_of(b"c"), "");
    assert_eq!(text_of(b"bd"), "1");
    assert_eq!(text_of(b"bp"), "1");
    assert_eq!(text_of(b"bt"), "1");
    assert_eq!(text_of(b"bt "), "12");
}

#[test]
fn string_german_letters_are_transliterated() {
    assert_eq!(text_of("Straße".as_bytes()), "8278");
    assert_eq!(text_of("Strae".as_bytes()), "827");
    assert_eq!(text_of("Müßig".as_bytes()), "684");
    assert_eq!(text_of("ärger".as_bytes()), "0747");
    assert_eq!(text_of("örtlich".as_bytes()), "07254");
    assert_eq!(text_of("übel".as_bytes()), "015");
}

#[test]
fn string_other_letters_outside_ascii_are_skipped() {
    assert_eq!(text_of("Ärger".as_bytes()), "747");
    assert_eq!(text_of("é".as_bytes()), "");
    assert_eq!(text_of("bébé".as_bytes()), "1");
    assert_eq!(text_of("b€b".as_bytes()), "1");
    assert_eq!(text_of(&[0xA4, b'b']), "1");
    assert_eq!(text_of(&[0xFF, 0xFE, 0x80]), "");
}

#[test]
fn string_broken_sequences() {
    assert_eq!(text_of(&[0xC3, b'b']), "1");
    assert_eq!(text_of(&[0xC3, b' ', b'b']), " 1");
    assert_eq!(text_of(&[0xC3, 0xC3, 0xA4, b'b']), "01");
    assert_eq!(text_of(&[0xC3, 0x80, 0xA4, b'b']), "1");
    assert_eq!(text_of(&[b'b', 0xC3]), "1");
}

#[test]
fn string_class_twice_in_a_row() {
    assert_eq!(text_of(b"gag"), "44");
    assert_eq!(text_of(b"Anhand"), "066");
    assert_eq!(text_of(b"Mama"), "66");
    assert_eq!(text_of(b"Mamma"), "66");
    assert_eq!(text_of(b"Bob"), "11");
    assert_eq!(text_of(b"gg"), "4");
}

#[test]
fn string_case_does_not_matter() {
    assert_eq!(text_of(b"AHO AHO"), "0 0");
    assert_eq!(text_of(b"aho aho"), text_of(b"AHO AHO"));
    assert_eq!(text_of(b"Aho Aho"), text_of(b"AHO AHO"));
    let text = "Der schnelle braune Fuchs springt ueber den faulen Hund; xylophon, Cchz!";
    assert_eq!(text_of(text.to_ascii_uppercase().as_bytes()), text_of(text.as_bytes()));
    assert_eq!(text_of(text.to_ascii_lowercase().as_bytes()), text_of(text.as_bytes()));
}
