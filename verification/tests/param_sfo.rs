use savevault::scan::emulator::param_sfo::{
    string_value, title, title_id_prefix, FMT_UTF8, HEADER_SIZE, MAGIC,
};

/// Builds a valid SFO per the format, so as not to depend on anybody's save.
fn sfo(pairs: &[(&str, &str)]) -> Vec<u8> {
    let mut keys: Vec<u8> = vec![];
    let mut data: Vec<u8> = vec![];
    let mut index: Vec<u8> = vec![];

    for (key, value) in pairs {
        let key_offset = keys.len() as u16;
        keys.extend_from_slice(key.as_bytes());
        keys.push(0);

        let data_offset = data.len() as u32;
        let mut value_bytes = value.as_bytes().to_vec();
        value_bytes.push(0);
        let len = value_bytes.len() as u32;
        data.extend_from_slice(&value_bytes);

        index.extend_from_slice(&key_offset.to_le_bytes());
        index.extend_from_slice(&FMT_UTF8.to_le_bytes());
        index.extend_from_slice(&len.to_le_bytes());
        index.extend_from_slice(&len.to_le_bytes());
        index.extend_from_slice(&data_offset.to_le_bytes());
    }

    let key_table = (HEADER_SIZE + index.len()) as u32;
    let data_table = key_table + keys.len() as u32;

    let mut out = vec![];
    out.extend_from_slice(&MAGIC.to_le_bytes());
    out.extend_from_slice(&0x0000_0101u32.to_le_bytes());
    out.extend_from_slice(&key_table.to_le_bytes());
    out.extend_from_slice(&data_table.to_le_bytes());
    out.extend_from_slice(&(pairs.len() as u32).to_le_bytes());
    out.extend_from_slice(&index);
    out.extend_from_slice(&keys);
    out.extend_from_slice(&data);
    out
}

#[test]
fn reads_the_title() {
    let bytes = sfo(&[
        ("CATEGORY", "MS"),
        ("TITLE", "MONSTER HUNTER FREEDOM UNITE"),
        ("SAVEDATA_DETAIL", "Village 5"),
    ]);

    assert_eq!(Some("MONSTER HUNTER FREEDOM UNITE".to_string()), title(&bytes));
}

#[test]
fn reads_a_key_that_is_not_the_first_one() {
    let bytes = sfo(&[("CATEGORY", "MS"), ("SAVEDATA_DETAIL", "Slot 1")]);

    assert_eq!(Some("Slot 1".to_string()), string_value(&bytes, "SAVEDATA_DETAIL"));
    assert_eq!(None, title(&bytes));
}

#[test]
fn a_missing_key_is_not_an_error() {
    let bytes = sfo(&[("CATEGORY", "MS")]);
    assert_eq!(None, title(&bytes));
}

#[test]
fn refuses_anything_that_is_not_an_sfo() {
    assert_eq!(None, title(b""));
    assert_eq!(None, title(b"nao e um sfo"));
    assert_eq!(None, title(&[0u8; 64]));
}

#[test]
fn param_sfo_survives_a_truncated_file() {
    let bytes = sfo(&[("TITLE", "PERSONA 3 PORTABLE")]);

    for cut in 1..bytes.len() {
        let _ = title(&bytes[..cut]);
    }
}

#[test]
fn survives_a_lying_entry_count() {
    let mut bytes = sfo(&[("TITLE", "GOD OF WAR")]);
    bytes[0x10..0x14].copy_from_slice(&u32::MAX.to_le_bytes());

    assert_eq!(Some("GOD OF WAR".to_string()), title(&bytes));
}

#[test]
fn ignores_a_value_that_is_not_text() {
    let mut bytes = sfo(&[("TITLE", "TEKKEN 6")]);
    bytes[HEADER_SIZE + 0x02..HEADER_SIZE + 0x04].copy_from_slice(&0x0404u16.to_le_bytes());

    assert_eq!(None, title(&bytes));
}

#[test]
fn recognizes_playstation_title_ids_by_shape() {
    assert_eq!(Some("ULUS12345".to_string()), title_id_prefix("ULUS1234501"));
    assert_eq!(Some("BLES00932".to_string()), title_id_prefix("BLES00932-AUTO"));
    assert_eq!(Some("NPEA00275".to_string()), title_id_prefix("NPEA00275"));
    assert_eq!(Some("ULUS12345".to_string()), title_id_prefix("ulus12345"));
    assert_eq!(None, title_id_prefix("SAVEDATA"));
    assert_eq!(None, title_id_prefix("ULUS123"));
    assert_eq!(None, title_id_prefix("12345ULUS"));
}

#[test]
fn a_key_that_is_not_utf8_ends_the_search() {
    let mut bytes = sfo(&[("CATEGORY", "MS"), ("TITLE", "GOD OF WAR")]);
    let key_table = u32::from_le_bytes(bytes[8..12].try_into().unwrap()) as usize;
    bytes[key_table] = 0xFF;

    assert_eq!(None, title(&bytes));
}

#[test]
fn a_value_without_terminator_is_read_to_its_declared_length() {
    let mut bytes = sfo(&[("TITLE", "WIPEOUT")]);
    let len = bytes.len();
    bytes[len - 1] = b'!';

    assert_eq!(Some("WIPEOUT!".to_string()), title(&bytes));
}
