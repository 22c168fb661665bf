use savevault::manifest::{Game, Source};
use savevault::scan::emulator::{App, Area};
use savevault::scan::game_filter::{Change, Completeness, Enablement, Manifest, Origin, Uniqueness};
use savevault::scan::info::{Duplication, ScanChange, ScanInfo};
use savevault::scan::layout::{BackupSemantics, DirectorySemantics, SemanticDirKind};

fn scan_of(name: &str, app: Option<App>) -> ScanInfo {
    ScanInfo {
        game_name: name.to_string(),
        semantics: match app {
            None => BackupSemantics::default(),
            Some(app) => {
                let mut semantics = BackupSemantics::new();
                semantics.insert(
                    "C:/emu/saves".to_string(),
                    DirectorySemantics { kind: SemanticDirKind::Emulator { app, area: Area::Saves } },
                );
                semantics
            },
        },
        ..Default::default()
    }
}

/// The name trap, now in the filter: an emulator game's key is `"<Emulator> <identity>"`, so
/// filtering by name would put `Eden Ring`, a PC game, inside the Eden emulator.
#[test]
fn a_pc_game_named_like_an_emulator_is_not_filtered_as_one() {
    let pc = scan_of("Eden Ring", None);
    let switch = scan_of("Eden 0100000000010000", Some(App::Eden));

    assert!(Origin::Pc.qualifies(&pc));
    assert!(!Origin::Emulator(App::Eden).qualifies(&pc));

    assert!(!Origin::Pc.qualifies(&switch));
    assert!(Origin::Emulator(App::Eden).qualifies(&switch));
    // And one emulator does not take the other's save.
    assert!(!Origin::Emulator(App::Sudachi).qualifies(&switch));
}

#[test]
fn the_group_of_a_game_comes_from_the_scan_not_from_its_name() {
    assert_eq!(Origin::Pc, Origin::of(&scan_of("Eden Ring", None)));
    assert_eq!(
        Origin::Emulator(App::Eden),
        Origin::of(&scan_of("Eden 0100000000010000", Some(App::Eden)))
    );
}

/// The PC is the big bucket and goes last.
#[test]
fn the_pc_group_sorts_last() {
    let mut groups = [Origin::Pc, Origin::Emulator(App::Ppsspp), Origin::Emulator(App::DuckStation)];
    groups.sort();

    assert_eq!(Some(&Origin::Pc), groups.last());
}

#[test]
fn every_known_emulator_is_offered_next_to_the_pc() {
    let all = Origin::all();
    assert_eq!(Some(&Origin::Pc), all.first());
    assert_eq!(App::ALL.len() + 1, all.len());
}

// Beyond the scenarios above.

#[test]
fn the_simple_filters_split_in_two() {
    assert!(Uniqueness::Unique.qualifies(Duplication::Unique));
    assert!(!Uniqueness::Unique.qualifies(Duplication::Resolved));
    assert!(Uniqueness::Duplicate.qualifies(Duplication::Duplicate));
    assert!(Enablement::Enabled.qualifies(true));
    assert!(Enablement::Disabled.qualifies(false));
    let mut scan = scan_of("Hades", None);
    assert!(Completeness::Complete.qualifies(&scan));
    scan.ignored = true;
    assert!(Completeness::Partial.qualifies(&scan));
    scan.change = ScanChange::Different;
    assert!(Change::Updated.qualifies(&scan));
    assert!(!Change::New.qualifies(&scan));
    scan.change = ScanChange::Unknown;
    assert!(Change::Unscanned.qualifies(&scan));
}

#[test]
fn the_manifest_filter_counts_hand_made_games_as_custom() {
    let listed = Game { sources: vec![Source::Primary, Source::Secondary("extra".to_string())] };
    assert!(Manifest::new(Source::Primary).qualifies(Some(&listed), false));
    assert!(Manifest::new(Source::Secondary("extra".to_string())).qualifies(Some(&listed), false));
    assert!(!Manifest::new(Source::Secondary("other".to_string())).qualifies(Some(&listed), false));
    assert!(!Manifest::new(Source::Custom).qualifies(Some(&listed), false));
    assert!(Manifest::new(Source::Custom).qualifies(None, true));
    assert!(!Manifest::new(Source::Primary).qualifies(None, true));
}

#[test]
fn origins_compare_in_screen_order() {
    assert!(Origin::Emulator(App::Xenia) < Origin::Pc);
    assert!(Origin::Pc > Origin::Emulator(App::Ppsspp));
    assert!(Origin::Emulator(App::Ppsspp) < Origin::Emulator(App::Eden));
    assert_eq!(Some(std::cmp::Ordering::Equal), Origin::Pc.partial_cmp(&Origin::Pc));
    assert_eq!(Origin::Emulator(App::Pcsx2).cmp(&Origin::Pc), Origin::Emulator(App::Pcsx2).partial_cmp(&Origin::Pc).unwrap());
}
