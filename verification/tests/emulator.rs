use savevault::path::StrictPath;
use savevault::scan::emulator::psx_card::CARD_SIZE;
use savevault::scan::emulator::{
    discover_saves, App, Area, CommonPaths, DiscoveredSave, Disk, DiskEntry, EmulatorRoot, EntryKind, GameId, Roots,
};

/// A DuckStation data folder, as the listing of a synthetic disk.
struct FakeInstall {
    root: StrictPath,
    disk: Disk,
}

impl FakeInstall {
    fn at(root: &str) -> Self {
        let root = StrictPath::new(root.to_string());
        let disk = Disk {
            entries: vec![DiskEntry { path: root.clone(), kind: EntryKind::Dir, contents: None }],
        };
        Self { root, disk }
    }

    fn new() -> Self {
        Self::at("C:/Users/test/AppData/Local/DuckStation")
    }

    fn dir(mut self, name: &str) -> Self {
        self.disk.entries.push(DiskEntry { path: self.root.joined(name), kind: EntryKind::Dir, contents: None });
        self
    }

    fn file(mut self, name: &str, contents: &[u8]) -> Self {
        if let Some((parent, _)) = name.rsplit_once('/') {
            let parent_path = self.root.joined(parent);
            if !self.disk.entries.iter().any(|e| e.path == parent_path) {
                self = self.dir(parent);
            }
        }
        self.disk.entries.push(DiskEntry {
            path: self.root.joined(name),
            kind: EntryKind::File,
            contents: Some(contents.to_vec()),
        });
        self
    }

    /// A normal install: memory card folder and settings file.
    fn installed() -> Self {
        Self::new().dir("memcards").file("settings.ini", b"[Main]\n")
    }

    /// A portable install: the marker instead of the settings file.
    fn portable() -> Self {
        Self::new().dir("memcards").file("portable.txt", b"")
    }
}

/// A valid memory card with the given games inside, for the discovery tests.
fn card_with(games: &[(&str, &str)]) -> Vec<u8> {
    let mut bytes = vec![0u8; CARD_SIZE];
    for slot in 1..=15usize {
        let at = 128 * slot;
        bytes[at..at + 4].copy_from_slice(&0x0000_00A0u32.to_le_bytes());
    }
    for (index, (filename, title)) in games.iter().enumerate() {
        let slot = index + 1;
        let at = 128 * slot;
        bytes[at..at + 4].copy_from_slice(&0x0000_0051u32.to_le_bytes());
        let raw = filename.as_bytes();
        bytes[at + 0x0A..at + 0x0A + raw.len()].copy_from_slice(raw);

        let at = 8192 * slot;
        bytes[at..at + 2].copy_from_slice(b"SC");
        let (encoded, _, _) = encoding_rs::SHIFT_JIS.encode(title);
        bytes[at + 0x04..at + 0x04 + encoded.len()].copy_from_slice(&encoded);
    }
    bytes
}

#[test]
fn recognizes_an_installed_data_root() {
    let install = FakeInstall::installed();
    assert!(App::DuckStation.matches_data_root(&install.root, &install.disk));
    assert_eq!(Some(App::DuckStation), App::detect(&install.root, &install.disk));
}

#[test]
fn recognizes_a_portable_data_root() {
    let install = FakeInstall::portable();
    assert!(App::DuckStation.matches_data_root(&install.root, &install.disk));
}

#[test]
fn rejects_a_folder_without_the_required_marker() {
    // `memcards` alone is not enough: PCSX2 has that folder too.
    let install = FakeInstall::new().dir("memcards");
    assert!(!App::DuckStation.matches_data_root(&install.root, &install.disk));
    assert_eq!(None, App::detect(&install.root, &install.disk));
}

#[test]
fn rejects_a_folder_without_memcards() {
    let install = FakeInstall::new().file("settings.ini", b"[Main]\n");
    assert!(!App::DuckStation.matches_data_root(&install.root, &install.disk));
}

#[test]
fn rejects_a_missing_folder() {
    assert!(!App::DuckStation.matches_data_root(&StrictPath::new("Z:/nao/existe".to_string()), &Disk::default()));
}

#[test]
fn discovers_a_game_by_the_content_of_its_card() {
    let install = FakeInstall::installed()
        .file("memcards/SLUS-00067_1.mcd", &card_with(&[("BASLUS-00067SOTN", "CASTLEVANIA SOTN")]));

    let found = discover_saves(App::DuckStation, &install.root, &install.disk);

    assert_eq!(1, found.len());
    assert_eq!(GameId::Media("SLUS-00067".to_string()), found[0].game);
    assert_eq!(Some("CASTLEVANIA SOTN".to_string()), found[0].title);
    assert_eq!(Area::Memcards, found[0].area);
    assert_eq!(install.root.joined("memcards"), found[0].area_root);
}

/// The "one card per game title" mode names the file after the title, not the code. Since the
/// identity comes from INSIDE the file, that keeps working.
#[test]
fn identifies_a_card_named_after_the_title_not_the_serial() {
    let install = FakeInstall::installed()
        .file("memcards/Final Fantasy VII_1.mcd", &card_with(&[("BASLUS-00594FF7", "FF7-01")]));

    let found = discover_saves(App::DuckStation, &install.root, &install.disk);

    assert_eq!(1, found.len());
    assert_eq!(GameId::Media("SLUS-00594".to_string()), found[0].game);
}

#[test]
fn a_card_with_several_games_becomes_one_shared_entry() {
    let install = FakeInstall::installed().file(
        "memcards/shared_card_1.mcd",
        &card_with(&[("BASLUS-00067SOTN", "CASTLEVANIA SOTN"), ("BASLUS-00594FF7", "FF7-01")]),
    );

    let found = discover_saves(App::DuckStation, &install.root, &install.disk);

    assert_eq!(1, found.len());
    assert_eq!(GameId::SharedCard, found[0].game);
    assert_eq!(Some("CASTLEVANIA SOTN, FF7-01".to_string()), found[0].title);
    assert_eq!("DuckStation shared memory cards", found[0].game.game_key(App::DuckStation));
}

/// An unreadable card cannot disappear in silence: it holds progress.
#[test]
fn an_unreadable_card_is_kept_as_unidentified() {
    let install = FakeInstall::installed().file("memcards/broken_1.mcd", b"nada a ver");

    let found = discover_saves(App::DuckStation, &install.root, &install.disk);

    assert_eq!(1, found.len());
    assert_eq!(GameId::Unidentified("broken_1".to_string()), found[0].game);
    assert_eq!(None, found[0].title);
    assert_eq!("DuckStation broken_1", found[0].game.game_key(App::DuckStation));
}

#[test]
fn ignores_files_of_other_kinds_and_other_folders() {
    let install = FakeInstall::installed()
        .dir("bios")
        .dir("covers")
        .dir("cache")
        .file("bios/scph1001.bin", b"nao e save")
        .file("covers/SLUS-00067.jpg", b"nao e save")
        .file("memcards/readme.txt", b"nao e save")
        .file("settings.ini", b"[Main]\n");

    assert_eq!(Vec::<DiscoveredSave>::new(), discover_saves(App::DuckStation, &install.root, &install.disk));
}

#[test]
fn discovers_savestates_by_media_code_in_the_filename() {
    let install = FakeInstall::installed().dir("savestates").file("savestates/SLUS-00067_1.sav", b"estado");

    let found = discover_saves(App::DuckStation, &install.root, &install.disk);

    assert_eq!(1, found.len());
    assert_eq!(Area::Savestates, found[0].area);
    assert_eq!(GameId::Media("SLUS-00067".to_string()), found[0].game);
}

#[test]
fn keeps_a_savestate_whose_name_has_no_media_code() {
    let install = FakeInstall::installed().dir("savestates").file("savestates/resume.sav", b"estado");

    let found = discover_saves(App::DuckStation, &install.root, &install.disk);

    assert_eq!(1, found.len());
    assert_eq!(GameId::Unidentified("resume".to_string()), found[0].game);
}

#[test]
fn game_key_is_built_from_identity_never_from_title() {
    assert_eq!(
        "DuckStation SLUS-00067",
        GameId::Media("SLUS-00067".to_string()).game_key(App::DuckStation)
    );
}

#[test]
fn roots_ignores_an_emulator_root_that_does_not_match_the_signature() {
    let install = FakeInstall::new().dir("memcards");
    let roots = vec![EmulatorRoot { path: install.root.clone(), app: None }];

    assert_eq!(None, Roots::for_config(&roots, &CommonPaths::default(), &install.disk).data_root(App::DuckStation));
}

#[test]
fn roots_uses_a_configured_emulator_root() {
    let install = FakeInstall::portable();
    let roots = vec![EmulatorRoot { path: install.root.clone(), app: Some(App::DuckStation) }];

    assert_eq!(
        Some(&install.root),
        Roots::for_config(&roots, &CommonPaths::default(), &install.disk).data_root(App::DuckStation)
    );
}

/// Two installs of the same emulator make the destination undetermined, and the engine has to
/// admit it instead of choosing.
#[test]
fn roots_refuses_to_choose_between_two_installs_of_the_same_emulator() {
    let one = FakeInstall::at("D:/Emus/DuckStation").dir("memcards").file("portable.txt", b"");
    let two = FakeInstall::installed();
    let mut disk = one.disk.clone();
    disk.entries.extend(two.disk.entries.clone());
    let roots = vec![
        EmulatorRoot { path: one.root.clone(), app: Some(App::DuckStation) },
        EmulatorRoot { path: two.root.clone(), app: Some(App::DuckStation) },
    ];

    let roots = Roots::for_config(&roots, &CommonPaths::default(), &disk);
    assert_eq!(None, roots.data_root(App::DuckStation));
    assert_eq!(2, roots.candidates(App::DuckStation).len());
}

// Beyond the scenarios above.

/// The defaults of this machine are used for an emulator with no configured root.
#[test]
fn roots_falls_back_to_the_default_place_of_this_machine() {
    let install = FakeInstall::installed();
    let paths = CommonPaths {
        data_local: Some("C:/Users/test/AppData/Local".to_string()),
        ..Default::default()
    };
    let roots = Roots::for_config(&Vec::new(), &paths, &install.disk);
    assert_eq!(
        Some("C:/Users/test/AppData/Local/DuckStation".to_string()),
        roots.data_root(App::DuckStation).map(|p| p.raw())
    );
    assert!(!roots.is_empty());
    assert_eq!(1, roots.iter().len());
}

/// The same folder configured twice is one candidate, not an ambiguity.
#[test]
fn the_same_folder_twice_is_listed_once() {
    let install = FakeInstall::installed();
    let roots = vec![
        EmulatorRoot { path: install.root.clone(), app: Some(App::DuckStation) },
        EmulatorRoot {
            path: StrictPath::new("c:\\users\\test\\appdata\\local\\duckstation\\".to_string()),
            app: Some(App::DuckStation),
        },
    ];
    let roots = Roots::for_config(&roots, &CommonPaths::default(), &install.disk);
    assert_eq!(Some(&install.root), roots.data_root(App::DuckStation));
}

/// A portable PCSX2 folder has `memcards` and `portable.txt` too, and is not DuckStation's.
#[test]
fn a_portable_pcsx2_folder_is_not_taken_for_duckstation() {
    let install = FakeInstall::at("D:/PCSX2").dir("memcards").dir("inis").file("portable.txt", b"");
    assert!(!App::DuckStation.matches_data_root(&install.root, &install.disk));
    assert_eq!(Some(App::Pcsx2), App::detect(&install.root, &install.disk));
}

/// The saves of an area come in the order of their paths, whatever order the disk listed them in.
#[test]
fn saves_come_in_path_order() {
    let install = FakeInstall::installed()
        .dir("savestates")
        .file("savestates/SLUS-00594_1.sav", b"b")
        .file("savestates/SLUS-00067_1.sav", b"a");

    let found = discover_saves(App::DuckStation, &install.root, &install.disk);

    assert_eq!(2, found.len());
    assert_eq!(GameId::Media("SLUS-00067".to_string()), found[0].game);
    assert_eq!(GameId::Media("SLUS-00594".to_string()), found[1].game);
}

/// The extension is compared ignoring case, after the dot.
#[test]
fn an_extension_in_capitals_still_counts() {
    let install = FakeInstall::installed().file("memcards/EPSXE.MCR", b"x").file("memcards/notes.mcdx", b"y");

    let found = discover_saves(App::DuckStation, &install.root, &install.disk);

    assert_eq!(1, found.len());
    assert_eq!(GameId::Unidentified("EPSXE".to_string()), found[0].game);
}

#[test]
fn every_emulator_has_its_proper_name() {
    let names: Vec<&str> = App::ALL.iter().map(|app| app.name()).collect();
    assert_eq!(
        vec!["PPSSPP", "DuckStation", "PCSX2", "RPCS3", "shadPS4", "Sudachi", "Eden", "Xenia"],
        names
    );
    assert_eq!(0, App::PLANNED.len());
}

#[test]
fn an_emulator_whose_layout_is_unknown_recognises_no_folder() {
    let install = FakeInstall::installed();
    assert!(!App::Rpcs3.matches_data_root(&install.root, &install.disk));
    assert!(App::Rpcs3.profile().areas.is_empty());
}

#[test]
fn an_unidentified_file_keeps_its_name_in_the_key() {
    assert_eq!(
        "PCSX2 Mcd001",
        GameId::Unidentified("Mcd001".to_string()).game_key(App::Pcsx2)
    );
}

#[test]
fn a_xenia_folder_is_recognised_by_its_content_and_cache() {
    let install = FakeInstall::at("D:/Xenia").dir("content").dir("cache");
    assert_eq!(Some(App::Xenia), App::detect(&install.root, &install.disk));
    let bare = FakeInstall::at("D:/Xenia").dir("content");
    assert_eq!(None, App::detect(&bare.root, &bare.disk));
}
