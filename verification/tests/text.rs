use savevault::scan::emulator::text::{decode_shift_jis, normalize_width};

#[test]
fn converts_full_width_to_ascii() {
    assert_eq!("FF9", normalize_width("ＦＦ９"));
    assert_eq!("A B", normalize_width("Ａ\u{3000}Ｂ"));
}

#[test]
fn keeps_japanese_text_alone() {
    assert_eq!("ペプシマン", normalize_width("ペプシマン"));
}

#[test]
fn decodes_until_the_terminator() {
    let mut raw = encoding_rs::SHIFT_JIS.encode("GOD OF WAR").0.into_owned();
    raw.extend_from_slice(&[0, b'X', b'Y']);

    assert_eq!(Some("GOD OF WAR".to_string()), decode_shift_jis(&raw));
}

#[test]
fn refuses_what_is_not_shift_jis() {
    assert_eq!(None, decode_shift_jis(&[0x81, 0xFF, 0xFE]));
    assert_eq!(None, decode_shift_jis(&[]));
    assert_eq!(None, decode_shift_jis(b"   "));
}

#[test]
fn normalize_width_trims_both_ends_after_folding() {
    assert_eq!("Z→Z", normalize_width("\u{3000} Ｚ→Ｚ \t"));
    assert_eq!("", normalize_width("\u{3000}\u{3000}"));
    assert_eq!("!~", normalize_width("！～"));
}

#[test]
fn a_title_made_of_spaces_decodes_to_nothing() {
    let raw = encoding_rs::SHIFT_JIS.encode("\u{3000}\u{3000}").0.into_owned();
    assert_eq!(None, decode_shift_jis(&raw));
}
