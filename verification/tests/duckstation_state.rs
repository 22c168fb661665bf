use savevault::scan::emulator::duckstation_state::{
    read_header, HEADER_PREFIX, MAGIC, SERIAL_AT, SERIAL_LEN, TITLE_AT, TITLE_LEN,
};

/// Builds a valid header per the format, so as not to depend on anybody's save.
fn header(version: u32, title: &[u8], serial: &[u8]) -> Vec<u8> {
    let mut bytes = vec![0u8; HEADER_PREFIX];
    bytes[0..4].copy_from_slice(&MAGIC.to_le_bytes());
    bytes[4..8].copy_from_slice(&version.to_le_bytes());
    bytes[TITLE_AT..TITLE_AT + title.len().min(TITLE_LEN)].copy_from_slice(title);
    bytes[SERIAL_AT..SERIAL_AT + serial.len().min(SERIAL_LEN)].copy_from_slice(serial);
    bytes
}

#[test]
fn reads_the_title_and_serial() {
    let info = read_header(&header(83, b"X-Men - Mutant Academy", b"SLUS-00774")).unwrap();

    assert_eq!(83, info.version);
    assert_eq!(Some("X-Men - Mutant Academy".to_string()), info.title);
    assert_eq!(Some("SLUS-00774".to_string()), info.serial);
}

#[test]
fn the_serial_field_stops_before_the_next_field() {
    let mut bytes = header(83, b"Whatever", b"SLUS-00774");
    bytes.extend_from_slice(&0xDEAD_BEEFu32.to_le_bytes());

    assert_eq!(Some("SLUS-00774".to_string()), read_header(&bytes).unwrap().serial);
}

#[test]
fn a_title_that_fills_the_field_has_no_terminator() {
    let long = vec![b'A'; TITLE_LEN];

    assert_eq!(
        Some("A".repeat(TITLE_LEN)),
        read_header(&header(83, &long, b"SLUS-00774")).unwrap().title
    );
}

#[test]
fn text_after_the_terminator_is_ignored() {
    let mut bytes = header(83, b"Real Title", b"SLUS-00774");
    bytes[TITLE_AT + 40] = b'X';

    assert_eq!(Some("Real Title".to_string()), read_header(&bytes).unwrap().title);
}

#[test]
fn refuses_a_version_older_than_the_emulator_accepts() {
    assert_eq!(None, read_header(&header(41, b"Title", b"SLUS-00774")));
    assert!(read_header(&header(42, b"Title", b"SLUS-00774")).is_some());
}

#[test]
fn accepts_a_future_version() {
    assert!(read_header(&header(200, b"Title", b"SLUS-00774")).is_some());
}

#[test]
fn refuses_a_file_that_is_not_a_duckstation_state() {
    assert_eq!(None, read_header(b"PK\x03\x04 this is a zip"));
    assert_eq!(None, read_header(&[]));
    assert_eq!(None, read_header(&[0u8; 8]));
}

#[test]
fn an_unreadable_title_keeps_the_serial() {
    let info = read_header(&header(83, &[0xFF, 0xFE, 0xFD], b"SLUS-00774")).unwrap();

    assert_eq!(None, info.title);
    assert_eq!(Some("SLUS-00774".to_string()), info.serial);
}

#[test]
fn a_missing_serial_keeps_the_title() {
    let info = read_header(&header(83, b"Some Game", b"")).unwrap();

    assert_eq!(Some("Some Game".to_string()), info.title);
    assert_eq!(None, info.serial);
}

#[test]
fn reads_a_title_with_non_ascii_characters() {
    let info = read_header(&header(83, "Ape Escape — Special".as_bytes(), b"SCUS-94423")).unwrap();

    assert_eq!(Some("Ape Escape — Special".to_string()), info.title);
}

#[test]
fn duckstation_state_survives_a_truncated_file() {
    let whole = header(83, b"X-Men - Mutant Academy", b"SLUS-00774");

    for cut in 0..whole.len() {
        let _ = read_header(&whole[..cut]);
    }
}

#[test]
fn a_header_cut_before_the_fields_keeps_its_version_and_loses_the_text() {
    let whole = header(83, b"Title", b"SLUS-00774");
    let info = read_header(&whole[..0x20]).unwrap();

    assert_eq!(83, info.version);
    assert_eq!(None, info.title);
    assert_eq!(None, info.serial);
}

#[test]
fn the_serial_is_normalised_like_any_media_code() {
    let info = read_header(&header(83, b"  Padded  ", b"  slus-00774  ")).unwrap();

    assert_eq!(Some("Padded".to_string()), info.title);
    assert_eq!(Some("SLUS-00774".to_string()), info.serial);
}
