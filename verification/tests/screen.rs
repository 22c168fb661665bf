use savevault::gui::logs::{ChangePhrase, Logs};
use savevault::gui::screen::{Detail, EmulatorFinding, EmulatorState, Emulators, Restore, CustomGames};
use savevault::gui::vault::Entry;
use savevault::path::StrictPath;
use savevault::scan::emulator::App;

fn finding(name: &str, data_root: Option<&str>, games: usize, candidates: Vec<bool>) -> EmulatorFinding {
    EmulatorFinding {
        name: name.to_string(),
        data_root: data_root.map(|p| StrictPath::new(p.to_string())),
        games,
        candidates,
    }
}

#[test]
fn an_unlooked_disk_says_unchecked() {
    let screen = Emulators::default();
    assert_eq!(EmulatorState::Unchecked, screen.state_of(App::DuckStation));
    assert_eq!(None, screen.detail_of(App::DuckStation));
}

/// A recognised folder with nothing in it is no success: it made empty backups.
#[test]
fn an_empty_folder_is_not_ready() {
    let screen = Emulators {
        diagnosis: Some(vec![
            finding("DuckStation", Some("D:/Emus/DuckStation"), 0, vec![true]),
            finding("PCSX2", Some("D:/Emus/PCSX2"), 3, vec![true]),
            finding("Eden", None, 0, vec![true, false, true]),
            finding("Xenia", None, 0, vec![true, false]),
        ]),
    };
    assert_eq!(EmulatorState::NoSaves, screen.state_of(App::DuckStation));
    assert!(!screen.state_of(App::DuckStation).is_good());
    assert_eq!(EmulatorState::Ready, screen.state_of(App::Pcsx2));
    assert!(screen.state_of(App::Pcsx2).is_good());
    assert_eq!(EmulatorState::Ambiguous, screen.state_of(App::Eden));
    assert_eq!(EmulatorState::Missing, screen.state_of(App::Xenia));
    assert_eq!(EmulatorState::Unchecked, screen.state_of(App::Rpcs3));

    assert_eq!(
        Some(Detail::UsingFolderWithoutSaves(StrictPath::new("D:/Emus/DuckStation".to_string()))),
        screen.detail_of(App::DuckStation)
    );
    assert_eq!(
        Some(Detail::UsingFolder(StrictPath::new("D:/Emus/PCSX2".to_string()), 3)),
        screen.detail_of(App::Pcsx2)
    );
    assert_eq!(Some(Detail::Ambiguous(2)), screen.detail_of(App::Eden));
    assert_eq!(None, screen.detail_of(App::Xenia));
}

fn entry(added: usize, changed: usize, removed: usize) -> Entry {
    Entry {
        when: 0,
        game: "g".to_string(),
        full: false,
        added,
        changed,
        removed,
        files: 0,
        bytes: 0,
        comment: None,
        emulator: None,
    }
}

#[test]
fn a_change_is_said_by_the_counts_that_are_not_zero() {
    assert_eq!(vec![ChangePhrase::NoChange], entry(0, 0, 0).change());
    assert_eq!(vec![ChangePhrase::Added(2), ChangePhrase::Removed(1)], entry(2, 0, 1).change());
    let runs = Logs::group_into_runs(vec![entry(1, 0, 0), entry(0, 3, 0)]);
    assert_eq!(vec![ChangePhrase::Added(1), ChangePhrase::Changed(3)], runs[0].change());
}

fn backup_of(game: &str, when: i64) -> Entry {
    Entry { when, game: game.to_string(), ..entry(0, 0, 0) }
}

#[test]
fn the_restore_screen_opens_folded_on_the_longest_unsaved_game() {
    let screen = Restore::new(&vec![backup_of("zelda", 30), backup_of("hades", 20), backup_of("zelda", 10)]);
    assert!(!screen.target_editor_open);
    let names: Vec<&str> = screen.inventory.iter().map(|g| g.name.as_str()).collect();
    assert_eq!(vec!["hades", "zelda"], names);
    assert_eq!(2, screen.inventory[1].backups);
    assert_eq!(30, screen.inventory[1].last_backup);
}

#[test]
fn the_custom_games_shown_are_the_ones_the_filter_lets_through() {
    let screen = CustomGames { filter_enabled: true };
    assert_eq!(vec![0, 2, 3], screen.visible_games(&vec![true, false, true, true, false]));
    assert_eq!(Vec::<usize>::new(), screen.visible_games(&vec![false, false]));
    assert_eq!(Vec::<usize>::new(), screen.visible_games(&vec![]));
}

#[test]
fn the_header_counts_only_ready_emulators() {
    let screen = Emulators {
        diagnosis: Some(vec![
            finding("DuckStation", Some("D:/Emus/DuckStation"), 0, vec![true]),
            finding("PCSX2", Some("D:/Emus/PCSX2"), 3, vec![true]),
            finding("Xenia", Some("D:/Emus/Xenia"), 1, vec![true]),
        ]),
    };
    assert_eq!(2, screen.ready_count());
    assert_eq!(0, Emulators::default().ready_count());
}
