use savevault::path::StrictPath;
use savevault::scan::emulator::{App, Area, Disk, DiskEntry, EntryKind, Roots};
use savevault::scan::layout::{BackupSemantics, DirectorySemantics, SemanticDirKind};
use savevault::scan::semantic::{
    emulator_restore_target, materialize_to_windows, materialize_to_wine, Base, EmulatorTarget, KnownFolders, Path, Prefix,
    Unresolved,
};

const RECORDED: &str = "C:/Users/mayco/AppData/Local/DuckStation/memcards";
const STORED: &str = "C:/Users/mayco/AppData/Local/DuckStation/memcards/SLUS-00067_1.mcd";

fn path(raw: &str) -> StrictPath {
    StrictPath::new(raw.to_string())
}

fn semantics_for(recorded: &str, area: Area) -> BackupSemantics {
    let mut semantics = BackupSemantics::new();
    semantics.insert(
        recorded.to_string(),
        DirectorySemantics { kind: SemanticDirKind::Emulator { app: App::DuckStation, area } },
    );
    semantics
}

fn roots_at(at: &str) -> Roots {
    Roots::new(vec![(App::DuckStation, path(at))])
}

/// The differentiator: the emulator moved, and the file follows it.
#[test]
fn re_anchors_onto_the_current_data_folder() {
    let target = emulator_restore_target(&path(STORED), &semantics_for(RECORDED, Area::Memcards), &roots_at("D:/Emus/DuckStation"));

    assert_eq!(EmulatorTarget::Redirected(path("D:/Emus/DuckStation/memcards/SLUS-00067_1.mcd")), target);
}

/// Same place, so the path in the backup is already right and there is nothing to say.
#[test]
fn says_nothing_when_the_data_folder_did_not_move() {
    let target = emulator_restore_target(
        &path(STORED),
        &semantics_for(RECORDED, Area::Memcards),
        &roots_at("C:/Users/mayco/AppData/Local/DuckStation"),
    );

    assert_eq!(EmulatorTarget::Settled, target);
}

/// On Windows the case of a recorded path and of the live one do differ in practice.
#[test]
fn matches_the_recorded_folder_ignoring_case() {
    let target = emulator_restore_target(
        &path("c:/users/mayco/appdata/local/duckstation/memcards/SLUS-00067_1.mcd"),
        &semantics_for(RECORDED, Area::Memcards),
        &roots_at("D:/Emus/DuckStation"),
    );

    assert_eq!(EmulatorTarget::Redirected(path("D:/Emus/DuckStation/memcards/SLUS-00067_1.mcd")), target);
}

/// A sibling folder whose name merely starts the same is a different folder.
#[test]
fn does_not_match_a_sibling_folder_with_a_longer_name() {
    let target = emulator_restore_target(
        &path("C:/Users/mayco/AppData/Local/DuckStation2/memcards/SLUS-00067_1.mcd"),
        &semantics_for(RECORDED, Area::Memcards),
        &roots_at("D:/Emus/DuckStation"),
    );

    assert_eq!(EmulatorTarget::Settled, target);
}

/// The case that must never silently fall back to the absolute path from the backup.
#[test]
fn refuses_when_the_emulator_is_not_installed() {
    let target = emulator_restore_target(&path(STORED), &semantics_for(RECORDED, Area::Memcards), &Roots::default());

    assert_eq!(EmulatorTarget::Unresolved(Unresolved::EmulatorMissing(App::DuckStation)), target);
}

/// Two installs mean the destination is undetermined.
#[test]
fn refuses_when_two_installs_are_ambiguous() {
    let roots = Roots::new(vec![
        (App::DuckStation, path("D:/Emus/DuckStation")),
        (App::DuckStation, path("C:/Users/mayco/Documents/DuckStation")),
    ]);

    let target = emulator_restore_target(&path(STORED), &semantics_for(RECORDED, Area::Memcards), &roots);

    assert_eq!(EmulatorTarget::Unresolved(Unresolved::EmulatorAmbiguous(App::DuckStation)), target);
}

/// Containment: a path that walks out of its own area is never re-anchored into the emulator
/// folder on this machine.
#[test]
fn refuses_to_re_anchor_a_path_that_escapes_its_area() {
    let target = emulator_restore_target(
        &path(&format!("{RECORDED}/../../../Windows/System32/evil.dll")),
        &semantics_for(RECORDED, Area::Memcards),
        &roots_at("D:/Emus/DuckStation"),
    );

    assert_eq!(
        EmulatorTarget::Settled,
        target,
        "a traversal path must not be re-anchored into the current emulator folder"
    );
}

/// A file with no emulator semantics is none of this engine's business.
#[test]
fn says_nothing_about_a_regular_pc_game_file() {
    let target = emulator_restore_target(
        &path("C:/Users/mayco/Documents/My Game/save.dat"),
        &BackupSemantics::default(),
        &roots_at("D:/Emus/DuckStation"),
    );

    assert_eq!(EmulatorTarget::Settled, target);
}

/// Each area is re-anchored onto its own subfolder.
#[test]
fn re_anchors_each_area_onto_its_own_subfolder() {
    let recorded = "C:/Users/mayco/AppData/Local/DuckStation/savestates";
    let target = emulator_restore_target(
        &path(&format!("{recorded}/SLUS-00067_1.sav")),
        &semantics_for(recorded, Area::Savestates),
        &roots_at("D:/Emus/DuckStation"),
    );

    assert_eq!(EmulatorTarget::Redirected(path("D:/Emus/DuckStation/savestates/SLUS-00067_1.sav")), target);
}

// Beyond the scenarios above.

/// A file deeper in the area keeps every segment below it.
#[test]
fn a_nested_file_keeps_its_whole_tail() {
    let target = emulator_restore_target(
        &path("C:\\Users\\mayco\\AppData\\Local\\DuckStation\\memcards\\shared\\card_1.mcd"),
        &semantics_for(RECORDED, Area::Memcards),
        &roots_at("D:/Emus/DuckStation/"),
    );

    assert_eq!(EmulatorTarget::Redirected(path("D:/Emus/DuckStation/memcards/shared/card_1.mcd")), target);
}

/// An area the emulator does not declare cannot be placed, and is refused.
#[test]
fn an_area_the_emulator_does_not_have_is_refused() {
    let target = emulator_restore_target(&path(STORED), &semantics_for(RECORDED, Area::Trophies), &roots_at("D:/Emus/DuckStation"));

    assert_eq!(EmulatorTarget::Unresolved(Unresolved::EmulatorMissing(App::DuckStation)), target);
}

#[test]
fn the_refusal_names_the_emulator() {
    assert_eq!(App::Eden, Unresolved::EmulatorAmbiguous(App::Eden).app());
    assert_eq!(App::Xenia, Unresolved::EmulatorMissing(App::Xenia).app());
}

#[test]
fn the_backup_names_its_emulator() {
    assert_eq!(Some(App::DuckStation), semantics_for(RECORDED, Area::Memcards).emulator());
    assert_eq!(None, BackupSemantics::default().emulator());
    let mut wine = BackupSemantics::new();
    wine.insert("/home/user/prefix".to_string(), DirectorySemantics { kind: SemanticDirKind::Wine });
    assert_eq!(None, wine.emulator());
}

#[test]
fn the_candidates_of_an_emulator_are_different_places() {
    let roots = Roots::new(vec![
        (App::DuckStation, StrictPath::new("D:/Emus/DuckStation".to_string())),
        (App::DuckStation, StrictPath::new("d:\\emus\\duckstation\\".to_string())),
        (App::DuckStation, StrictPath::new("E:/DuckStation".to_string())),
    ]);
    assert_eq!(2, roots.candidates(App::DuckStation).len());
    assert!(Roots::default().is_empty());
}

/// Recorded folders are walked in the order of their paths, whatever order they were recorded
/// in: of two nested areas, the outer one, whose path sorts first, decides.
#[test]
fn recorded_folders_are_walked_in_path_order() {
    let mut semantics = BackupSemantics::new();
    semantics.insert(
        "C:/Emu/memcards/sub".to_string(),
        DirectorySemantics { kind: SemanticDirKind::Emulator { app: App::DuckStation, area: Area::Savestates } },
    );
    semantics.insert(
        "C:/Emu/memcards".to_string(),
        DirectorySemantics { kind: SemanticDirKind::Emulator { app: App::DuckStation, area: Area::Memcards } },
    );
    let names: Vec<String> = semantics.directories().iter().map(|(p, _)| p.clone()).collect();
    assert_eq!(vec!["C:/Emu/memcards".to_string(), "C:/Emu/memcards/sub".to_string()], names);
    let target = emulator_restore_target(&path("C:/Emu/memcards/sub/a.mcd"), &semantics, &roots_at("D:/DS"));
    assert_eq!(EmulatorTarget::Redirected(path("D:/DS/memcards/sub/a.mcd")), target);
    semantics.insert("C:/Emu/memcards".to_string(), DirectorySemantics { kind: SemanticDirKind::Wine });
    assert_eq!(2, semantics.directories().len());
    assert_eq!(DirectorySemantics { kind: SemanticDirKind::Wine }, semantics.directories()[0].1);
}

#[test]
fn a_known_folder_path_lands_under_this_machines_folder() {
    let folders = KnownFolders { documents: Some("C:/Users/Alice/Documents/".to_string()), ..Default::default() };
    let semantic = Path { base: Base::WinDocuments, tail: "game/save.dat".to_string() };
    assert_eq!(
        Some("C:/Users/Alice/Documents/game/save.dat".to_string()),
        materialize_to_windows(&semantic, &folders).map(|p| p.raw())
    );
    let unknown = Path { base: Base::WinAppData, tail: "x".to_string() };
    assert_eq!(None, materialize_to_windows(&unknown, &folders));
    let drive = Path { base: Base::WinDrive('d'), tail: "x".to_string() };
    assert_eq!(None, materialize_to_windows(&drive, &folders));
}

#[test]
fn a_known_folder_path_lands_inside_the_wine_prefix() {
    let prefix = Prefix { path: path("/home/bob/pfx/"), wine_user: "bob".to_string() };
    let no_disk = Disk { entries: vec![] };
    let semantic = Path { base: Base::WinAppData, tail: "Game/s.sav".to_string() };
    assert_eq!(
        Some("/home/bob/pfx/drive_c/users/bob/AppData/Roaming/Game/s.sav".to_string()),
        materialize_to_wine(&semantic, &prefix, &no_disk).map(|p| p.raw())
    );
    let on_d = Path { base: Base::WinDrive('d'), tail: "Games/s.sav".to_string() };
    assert_eq!(None, materialize_to_wine(&on_d, &prefix, &no_disk));
    let with_d = Disk { entries: vec![DiskEntry { path: path("/home/bob/pfx/drive_d"), kind: EntryKind::Dir, contents: None }] };
    assert_eq!(
        Some("/home/bob/pfx/drive_d/Games/s.sav".to_string()),
        materialize_to_wine(&on_d, &prefix, &with_d).map(|p| p.raw())
    );
    let on_c = Path { base: Base::WinDrive('c'), tail: "x".to_string() };
    assert_eq!(Some("/home/bob/pfx/drive_c/x".to_string()), materialize_to_wine(&on_c, &prefix, &no_disk).map(|p| p.raw()));
}
