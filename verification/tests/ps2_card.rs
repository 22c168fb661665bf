use savevault::scan::emulator::ps2_card::{
    read_entries, CardEntry, FAT_END, FAT_IN_USE, ICON_NL_OFFSET_AT, ICON_TITLE_AT, MODE_DIRECTORY,
    MODE_FILE, MODE_USED, PAGE_DATA, PAGE_STRIDE_ECC, PAGE_STRIDE_PLAIN,
};

const MAGIC: &[u8] = b"Sony PS2 Memory Card Format";
const ICON_MAGIC: &[u8] = b"PS2D";

const ROOT_CLUSTER: u32 = 0;
const ALLOC_OFFSET: u32 = 41;
const TOTAL_CLUSTERS: u32 = 8135;
const IFC_CLUSTER: u32 = 8;
const FAT_CLUSTER: u32 = 9;

/// Builds a valid card per the format, with a real FAT, so the reading has to follow it.
struct CardBuilder {
    bytes: Vec<u8>,
    stride: usize,
    next: u32,
    root: Vec<u32>,
    root_entries: u32,
}

impl CardBuilder {
    fn formatted(stride: usize) -> Self {
        let pages = 16_384;
        let mut bytes = vec![0u8; pages * stride];

        bytes[0..MAGIC.len()].copy_from_slice(MAGIC);
        let put16 = |at: usize, value: u16, bytes: &mut Vec<u8>| {
            bytes[at..at + 2].copy_from_slice(&value.to_le_bytes());
        };
        put16(0x28, PAGE_DATA as u16, &mut bytes);
        put16(0x2A, 2, &mut bytes);
        for (at, value) in [
            (0x30, TOTAL_CLUSTERS),
            (0x34, ALLOC_OFFSET),
            (0x3C, ROOT_CLUSTER),
            (0x50, IFC_CLUSTER),
        ] {
            bytes[at..at + 4].copy_from_slice(&value.to_le_bytes());
        }

        let mut card = Self {
            bytes,
            stride,
            next: 1,
            root: vec![ROOT_CLUSTER],
            root_entries: 2,
        };

        let indirect = (IFC_CLUSTER * 2) as usize;
        card.page_at(indirect)[0..4].copy_from_slice(&FAT_CLUSTER.to_le_bytes());
        card.chain(&[ROOT_CLUSTER]);

        let root = card.root.clone();
        card.write_entry(&root, 0, MODE_USED | MODE_DIRECTORY, 2, ROOT_CLUSTER, ".");
        card.write_entry(&root, 1, MODE_USED | MODE_DIRECTORY, 2, ROOT_CLUSTER, "..");
        card
    }

    fn page_at(&mut self, page: usize) -> &mut [u8] {
        let at = page * self.stride;
        &mut self.bytes[at..at + PAGE_DATA]
    }

    fn write_entry(&mut self, clusters: &[u32], index: u32, mode: u32, length: u32, start: u32, name: &str) {
        let absolute = ALLOC_OFFSET + clusters[(index / 2) as usize];
        let page = (absolute * 2 + index % 2) as usize;
        let entry = self.page_at(page);

        entry.fill(0);
        entry[0x00..0x04].copy_from_slice(&mode.to_le_bytes());
        entry[0x04..0x08].copy_from_slice(&length.to_le_bytes());
        entry[0x10..0x14].copy_from_slice(&start.to_le_bytes());
        entry[0x40..0x40 + name.len()].copy_from_slice(name.as_bytes());
    }

    fn link(&mut self, cluster: u32, next: Option<u32>) {
        let value = match next {
            Some(next) => FAT_IN_USE | next,
            None => FAT_END,
        };
        let page = (FAT_CLUSTER * 2 + (cluster / 128)) as usize;
        let at = (cluster as usize % 128) * 4;
        self.page_at(page)[at..at + 4].copy_from_slice(&value.to_le_bytes());
    }

    fn chain(&mut self, clusters: &[u32]) {
        for (position, cluster) in clusters.iter().enumerate() {
            self.link(*cluster, clusters.get(position + 1).copied());
        }
    }

    fn claim(&mut self) -> u32 {
        let cluster = self.next;
        self.next += 1;
        cluster
    }

    /// Grows a chain to fit `entries` directory entries, leaving a free cluster between each on
    /// purpose, so the chain is not contiguous.
    fn grow(&mut self, clusters: &mut Vec<u32>, entries: u32) {
        while (clusters.len() as u32) * 2 < entries {
            let gap = self.claim();
            self.link(gap, None);
            let extra = self.claim();
            clusters.push(extra);
        }
        let chain = clusters.clone();
        self.chain(&chain);
    }

    fn write_file(&mut self, contents: &[u8]) -> u32 {
        let mut clusters = vec![self.claim()];
        while clusters.len() * PAGE_DATA * 2 < contents.len() {
            clusters.push(self.claim());
        }
        let chain = clusters.clone();
        self.chain(&chain);

        for (position, cluster) in clusters.iter().enumerate() {
            let absolute = ALLOC_OFFSET + cluster;
            for half in 0..2 {
                let from = position * PAGE_DATA * 2 + half * PAGE_DATA;
                if from >= contents.len() {
                    break;
                }
                let to = (from + PAGE_DATA).min(contents.len());
                let page = (absolute * 2 + half as u32) as usize;
                self.page_at(page)[..to - from].copy_from_slice(&contents[from..to]);
            }
        }

        clusters[0]
    }

    fn game(mut self, name: &str, files: &[(&str, Vec<u8>)]) -> Self {
        let entries = 2 + files.len() as u32;
        let mut folder = vec![self.claim()];
        self.grow(&mut folder, entries);

        self.write_entry(&folder, 0, MODE_USED | MODE_DIRECTORY, entries, folder[0], ".");
        self.write_entry(&folder, 1, MODE_USED | MODE_DIRECTORY, entries, ROOT_CLUSTER, "..");

        for (index, (file_name, contents)) in files.iter().enumerate() {
            let start = self.write_file(contents);
            self.write_entry(
                &folder,
                2 + index as u32,
                MODE_USED | MODE_FILE,
                contents.len() as u32,
                start,
                file_name,
            );
        }

        self.root_entries += 1;
        let mut root = self.root.clone();
        self.grow(&mut root, self.root_entries);
        self.root = root.clone();

        self.write_entry(
            &root,
            self.root_entries - 1,
            MODE_USED | MODE_DIRECTORY,
            entries,
            folder[0],
            name,
        );
        let total = self.root_entries;
        self.write_entry(&root, 0, MODE_USED | MODE_DIRECTORY, total, ROOT_CLUSTER, ".");

        self
    }

    fn build(self) -> Vec<u8> {
        self.bytes
    }
}

/// Builds a valid `icon.sys` per the `mcIcon` struct.
fn icon_sys(title: &str, newline_at: Option<usize>) -> Vec<u8> {
    let mut bytes = vec![0u8; 964];
    bytes[0..4].copy_from_slice(ICON_MAGIC);
    if let Some(at) = newline_at {
        bytes[ICON_NL_OFFSET_AT..ICON_NL_OFFSET_AT + 2].copy_from_slice(&(at as u16).to_le_bytes());
    }
    let encoded = encoding_rs::SHIFT_JIS.encode(title).0.into_owned();
    bytes[ICON_TITLE_AT..ICON_TITLE_AT + encoded.len()].copy_from_slice(&encoded);
    bytes
}

#[test]
fn a_formatted_but_empty_card_has_no_games() {
    assert_eq!(
        Vec::<CardEntry>::new(),
        read_entries(&CardBuilder::formatted(PAGE_STRIDE_ECC).build())
    );
}

#[test]
fn reads_the_serial_and_title_of_a_game() {
    let card = CardBuilder::formatted(PAGE_STRIDE_ECC)
        .game("BASLUS-21004MAYC", &[("icon.sys", icon_sys("DEF JAM FIGHT FOR NY", None))])
        .build();

    let found = read_entries(&card);

    assert_eq!(1, found.len());
    assert_eq!("BASLUS-21004MAYC", found[0].folder);
    assert_eq!("SLUS-21004", found[0].serial);
    assert_eq!(Some("DEF JAM FIGHT FOR NY".to_string()), found[0].title);
}

#[test]
fn a_card_reads_the_same_with_and_without_ecc() {
    let files = [("icon.sys", icon_sys("GOD OF WAR", None))];

    let with_ecc = read_entries(
        &CardBuilder::formatted(PAGE_STRIDE_ECC)
            .game("BASCUS-97399GodOfWar", &files)
            .build(),
    );
    let without_ecc = read_entries(
        &CardBuilder::formatted(PAGE_STRIDE_PLAIN)
            .game("BASCUS-97399GodOfWar", &files)
            .build(),
    );

    assert_eq!(with_ecc, without_ecc);
    assert_eq!(1, with_ecc.len());
    assert_eq!("SCUS-97399", with_ecc[0].serial);
}

#[test]
fn reads_several_games_from_one_card() {
    let card = CardBuilder::formatted(PAGE_STRIDE_ECC)
        .game("BASLUS-21004MAYC", &[("icon.sys", icon_sys("DEF JAM", None))])
        .game("BESCES-52412JCA", &[("icon.sys", icon_sys("JAK II", None))])
        .build();

    let found = read_entries(&card);

    assert_eq!(2, found.len());
    assert_eq!("SLUS-21004", found[0].serial);
    assert_eq!("SCES-52412", found[1].serial);
}

#[test]
fn finds_a_file_in_a_folder_that_spans_clusters() {
    let card = CardBuilder::formatted(PAGE_STRIDE_ECC)
        .game(
            "BASLUS-21004MAYC",
            &[
                ("save0.bin", vec![1u8; 100]),
                ("save1.bin", vec![2u8; 100]),
                ("icon.sys", icon_sys("DEF JAM", None)),
            ],
        )
        .build();

    assert_eq!(Some("DEF JAM".to_string()), read_entries(&card)[0].title);
}

#[test]
fn reads_an_icon_that_crosses_a_page_boundary() {
    let mut icon = icon_sys("DEF JAM", None);
    icon[960..964].copy_from_slice(b"tail");

    let card = CardBuilder::formatted(PAGE_STRIDE_ECC)
        .game("BASLUS-21004MAYC", &[("icon.sys", icon)])
        .build();

    assert_eq!(Some("DEF JAM".to_string()), read_entries(&card)[0].title);
}

#[test]
fn joins_a_title_broken_into_two_lines() {
    let card = CardBuilder::formatted(PAGE_STRIDE_ECC)
        .game("BASCUS-97399GodOfWar", &[("icon.sys", icon_sys("GOD OFWAR", Some(6)))])
        .build();

    assert_eq!(Some("GOD OF WAR".to_string()), read_entries(&card)[0].title);
}

#[test]
fn ps2_card_reads_a_japanese_title() {
    let card = CardBuilder::formatted(PAGE_STRIDE_ECC)
        .game("BISLPM-55108MAYC", &[("icon.sys", icon_sys("ペルソナ", None))])
        .build();

    assert_eq!(Some("ペルソナ".to_string()), read_entries(&card)[0].title);
}

#[test]
fn a_game_without_a_readable_icon_keeps_its_serial() {
    let missing = CardBuilder::formatted(PAGE_STRIDE_ECC)
        .game("BASLUS-21004MAYC", &[("data.bin", vec![7u8; 20])])
        .build();
    let broken = CardBuilder::formatted(PAGE_STRIDE_ECC)
        .game("BASLUS-21004MAYC", &[("icon.sys", vec![0u8; 964])])
        .build();

    for card in [missing, broken] {
        let found = read_entries(&card);
        assert_eq!(1, found.len());
        assert_eq!("SLUS-21004", found[0].serial);
        assert_eq!(None, found[0].title);
    }
}

#[test]
fn ignores_a_folder_without_a_media_code() {
    let card = CardBuilder::formatted(PAGE_STRIDE_ECC)
        .game("SAVEDATA", &[("icon.sys", icon_sys("QUALQUER", None))])
        .build();

    assert_eq!(Vec::<CardEntry>::new(), read_entries(&card));
}

#[test]
fn refuses_a_file_that_is_not_a_ps2_card() {
    assert_eq!(Vec::<CardEntry>::new(), read_entries(&[]));
    assert_eq!(Vec::<CardEntry>::new(), read_entries(&[0u8; 1024]));
    assert_eq!(Vec::<CardEntry>::new(), read_entries(&vec![0xABu8; 8_650_752]));
    assert_eq!(Vec::<CardEntry>::new(), read_entries(&vec![0u8; 8_650_751]));
    assert_eq!(Vec::<CardEntry>::new(), read_entries(&vec![0u8; 8_650_753]));
}

#[test]
fn survives_a_cyclic_fat() {
    let mut card = CardBuilder::formatted(PAGE_STRIDE_ECC)
        .game("BASLUS-21004MAYC", &[("icon.sys", icon_sys("DEF JAM", None))]);
    card.link(ROOT_CLUSTER, Some(ROOT_CLUSTER));
    let bytes = card.build();

    let _ = read_entries(&bytes);
}

#[test]
fn survives_a_lying_superblock() {
    let mut bytes = CardBuilder::formatted(PAGE_STRIDE_ECC)
        .game("BASLUS-21004MAYC", &[("icon.sys", icon_sys("DEF JAM", None))])
        .build();

    bytes[0x34..0x38].copy_from_slice(&u32::MAX.to_le_bytes());
    let _ = read_entries(&bytes);

    bytes[0x3C..0x40].copy_from_slice(&u32::MAX.to_le_bytes());
    let _ = read_entries(&bytes);
}

#[test]
fn the_icon_name_is_matched_ignoring_case() {
    let card = CardBuilder::formatted(PAGE_STRIDE_ECC)
        .game("BASLUS-21004MAYC", &[("ICON.SYS", icon_sys("DEF JAM", None))])
        .build();

    assert_eq!(Some("DEF JAM".to_string()), read_entries(&card)[0].title);
}

#[test]
fn a_line_break_past_the_title_keeps_the_whole_title() {
    let card = CardBuilder::formatted(PAGE_STRIDE_ECC)
        .game("BASLUS-21004MAYC", &[("icon.sys", icon_sys("DEF JAM", Some(40)))])
        .build();

    assert_eq!(Some("DEF JAM".to_string()), read_entries(&card)[0].title);
}
