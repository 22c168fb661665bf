use savevault::scan::emulator::psx_card::{media_code_in, read_entries, serial_from_filename, CardEntry, CARD_SIZE};

const FRAME_SIZE: usize = 128;
const BLOCK_SIZE: usize = 8_192;
const SAVE_BLOCKS: usize = 15;
const STATE_IN_USE_FIRST: u32 = 0x0000_0051;
const DIR_FILENAME_START: usize = 0x0A;
const TITLE_TEXT_START: usize = 0x04;

/// Builds a valid card image, so the tests exercise the real format without anybody's save.
struct CardBuilder {
    bytes: Vec<u8>,
}

impl CardBuilder {
    fn formatted() -> Self {
        let mut bytes = vec![0u8; CARD_SIZE];
        for slot in 1..=SAVE_BLOCKS {
            let at = FRAME_SIZE * slot;
            bytes[at..at + 4].copy_from_slice(&0x0000_00A0u32.to_le_bytes());
        }
        Self { bytes }
    }

    fn state(mut self, slot: usize, state: u32) -> Self {
        let at = FRAME_SIZE * slot;
        self.bytes[at..at + 4].copy_from_slice(&state.to_le_bytes());
        self
    }

    fn filename(mut self, slot: usize, name: &str) -> Self {
        let at = FRAME_SIZE * slot + DIR_FILENAME_START;
        let raw = name.as_bytes();
        self.bytes[at..at + raw.len()].copy_from_slice(raw);
        self
    }

    fn title(mut self, slot: usize, title: &str) -> Self {
        let at = BLOCK_SIZE * slot;
        self.bytes[at..at + 2].copy_from_slice(b"SC");
        self.bytes[at + 0x02] = 0x11;
        self.bytes[at + 0x03] = 0x01;
        let (encoded, _, _) = encoding_rs::SHIFT_JIS.encode(title);
        let at = at + TITLE_TEXT_START;
        self.bytes[at..at + encoded.len()].copy_from_slice(&encoded);
        self
    }

    fn title_without_magic(mut self, slot: usize, title: &str) -> Self {
        let at = BLOCK_SIZE * slot + TITLE_TEXT_START;
        let (encoded, _, _) = encoding_rs::SHIFT_JIS.encode(title);
        self.bytes[at..at + encoded.len()].copy_from_slice(&encoded);
        self
    }

    fn save(self, slot: usize, name: &str, title: &str) -> Self {
        self.state(slot, STATE_IN_USE_FIRST).filename(slot, name).title(slot, title)
    }

    fn build(self) -> Vec<u8> {
        self.bytes
    }
}

#[test]
fn reads_nothing_from_a_formatted_empty_card() {
    assert_eq!(Vec::<CardEntry>::new(), read_entries(&CardBuilder::formatted().build()));
}

#[test]
fn reads_serial_and_title_of_a_single_save() {
    let card = CardBuilder::formatted().save(1, "BASLUS-00067SOTN", "CASTLEVANIA SOTN").build();

    assert_eq!(
        vec![CardEntry {
            slot: 1,
            serial: "SLUS-00067".to_string(),
            title: Some("CASTLEVANIA SOTN".to_string()),
        }],
        read_entries(&card)
    );
}

#[test]
fn reads_every_game_of_a_shared_card() {
    let card = CardBuilder::formatted()
        .save(1, "BASLUS-00067SOTN", "CASTLEVANIA SOTN")
        .save(2, "BASLUS-00594FF7", "FF7-01")
        .save(7, "BASCES-01438MGS", "METAL GEAR SOLID")
        .build();

    assert_eq!(
        vec![
            CardEntry {
                slot: 1,
                serial: "SLUS-00067".to_string(),
                title: Some("CASTLEVANIA SOTN".to_string()),
            },
            CardEntry {
                slot: 2,
                serial: "SLUS-00594".to_string(),
                title: Some("FF7-01".to_string()),
            },
            CardEntry {
                slot: 7,
                serial: "SCES-01438".to_string(),
                title: Some("METAL GEAR SOLID".to_string()),
            },
        ],
        read_entries(&card)
    );
}

#[test]
fn a_save_spanning_blocks_is_counted_once() {
    let card = CardBuilder::formatted()
        .save(1, "BASLUS-00662GRAN", "GRAN TURISMO")
        .state(2, 0x0000_0052)
        .state(3, 0x0000_0053)
        .build();

    let found = read_entries(&card);
    assert_eq!(1, found.len());
    assert_eq!("SLUS-00662", found[0].serial);
}

#[test]
fn psx_card_reads_a_japanese_title() {
    let card = CardBuilder::formatted().save(1, "BASLPS-00700SAGA", "サガ フロンティア").build();

    assert_eq!(
        vec![CardEntry {
            slot: 1,
            serial: "SLPS-00700".to_string(),
            title: Some("サガ フロンティア".to_string()),
        }],
        read_entries(&card)
    );
}

#[test]
fn normalizes_full_width_titles_to_ascii() {
    let card = CardBuilder::formatted().save(1, "BASLUS-01251FF9", "ＦＦ９　ＤＩＳＣ１").build();

    assert_eq!(Some("FF9 DISC1".to_string()), read_entries(&card)[0].title);
}

#[test]
fn a_title_frame_without_magic_yields_no_title_but_keeps_the_game() {
    let card = CardBuilder::formatted()
        .state(1, STATE_IN_USE_FIRST)
        .filename(1, "BASLUS-00067SOTN")
        .title_without_magic(1, "CASTLEVANIA SOTN")
        .build();

    assert_eq!(
        vec![CardEntry {
            slot: 1,
            serial: "SLUS-00067".to_string(),
            title: None,
        }],
        read_entries(&card)
    );
}

#[test]
fn ignores_a_save_whose_filename_has_no_media_code() {
    let card = CardBuilder::formatted().save(1, "MY-OWN-BACKUP", "WHATEVER").build();

    assert_eq!(Vec::<CardEntry>::new(), read_entries(&card));
}

#[test]
fn reads_nothing_from_a_file_of_the_wrong_size() {
    assert_eq!(Vec::<CardEntry>::new(), read_entries(&[]));
    assert_eq!(Vec::<CardEntry>::new(), read_entries(&vec![0u8; 1024]));
    assert_eq!(Vec::<CardEntry>::new(), read_entries(&vec![0u8; CARD_SIZE - 1]));
    assert_eq!(Vec::<CardEntry>::new(), read_entries(&vec![0u8; CARD_SIZE + 1]));
}

#[test]
fn reads_nothing_from_garbage_of_the_right_size() {
    let garbage: Vec<u8> = (0..CARD_SIZE).map(|i| (i % 251) as u8).collect();
    let _ = read_entries(&garbage);
}

#[test]
fn extracts_the_media_code_from_real_world_filename_shapes() {
    let cases = [
        ("BASLUS-00067SOTN", Some("SLUS-00067")),
        ("BESCES-01438MGS1", Some("SCES-01438")),
        ("BISLPS-00700SAGA", Some("SLPS-00700")),
        ("BASLUS-94163DRACULA", Some("SLUS-94163")),
        ("baslus-00594ff7", Some("SLUS-00594")),
        ("BASCPS-45231", Some("SCPS-45231")),
        ("SLUS-00067", Some("SLUS-00067")),
        ("BA", None),
        ("", None),
        ("BASLUS-00", None),
        ("NOTASERIALATALL", None),
    ];

    for (filename, expected) in cases {
        assert_eq!(
            expected.map(|x| x.to_string()),
            serial_from_filename(filename.as_bytes()),
            "nome: {filename}"
        );
    }
}

#[test]
fn media_code_keeps_searching_past_a_run_of_the_wrong_length() {
    assert_eq!(Some("SLUS-123".to_string()), media_code_in("ABCD-123456 SLUS-123"));
    assert_eq!(None, media_code_in("ABCD-12"));
    assert_eq!(Some("ABCD-12345".to_string()), media_code_in("abcd-12345"));
}

#[test]
fn a_filename_is_read_only_up_to_its_terminator() {
    assert_eq!(None, serial_from_filename(b"BASLUS\x00-00067"));
}
