use savevault::manifest::{Game, Source, Store};
use savevault::scan::emulator::App;
use savevault::scan::game_group::{GameFacts, GameGroup, GameOrigins, SourcesReport};

fn facts(name: &str) -> GameFacts<'_> {
    GameFacts { name, in_manifest: true, ..Default::default() }
}

fn origins_of(entries: &[(&str, Store)]) -> GameOrigins {
    let mut origins = GameOrigins::new();
    for (name, store) in entries {
        origins.insert(name.to_string(), *store);
    }
    origins
}

/// The name trap, a third time: `Eden Ring` is a PC game, and an emulator game's key is
/// `"<Emulator> <identity>"`.
#[test]
fn a_pc_game_named_like_an_emulator_is_not_grouped_under_it() {
    let origins = origins_of(&[("Eden Ring", Store::Steam)]);

    assert_eq!(GameGroup::Store(Store::Steam), GameGroup::classify(facts("Eden Ring"), &origins));
    assert_eq!(
        GameGroup::Emulator(App::Eden),
        GameGroup::classify(
            GameFacts { emulator: Some(App::Eden), ..facts("Eden 0100000000010000") },
            &origins,
        )
    );
}

/// The emulator wins over the store even when the launchers' map has a guess for the same name.
#[test]
fn the_emulator_wins_over_any_store() {
    let origins = origins_of(&[("Eden 0100000000010000", Store::Steam)]);

    assert_eq!(
        GameGroup::Emulator(App::Eden),
        GameGroup::classify(
            GameFacts { emulator: Some(App::Eden), ..facts("Eden 0100000000010000") },
            &origins,
        )
    );
}

#[test]
fn a_hand_made_game_is_its_own_group_only_when_it_is_not_in_the_manifest() {
    let origins = GameOrigins::default();

    assert_eq!(
        GameGroup::Custom,
        GameGroup::classify(GameFacts { customized: true, in_manifest: false, ..facts("Meu jogo") }, &origins)
    );
    // Customising a game that is in the manifest adjusts what exists; it creates nothing new.
    assert_eq!(
        GameGroup::Other,
        GameGroup::classify(GameFacts { customized: true, ..facts("Hades") }, &origins)
    );
}

#[test]
fn a_game_found_in_two_stores_lands_in_exactly_one() {
    let origins = origins_of(&[("Hades", Store::Steam), ("Hades", Store::Heroic)]);

    // Heroic comes before Steam in `Store::ALL`, and that is the criterion, not a preference.
    assert_eq!(GameGroup::Store(Store::Heroic), GameGroup::classify(facts("Hades"), &origins));
}

/// The emulator root is a `Store`, and no store: alone, it makes no store group.
#[test]
fn the_emulator_root_is_not_a_store_group() {
    let origins = origins_of(&[("Hades", Store::Emulator)]);

    assert_eq!(GameGroup::Other, GameGroup::classify(facts("Hades"), &origins));
}

#[test]
fn a_game_nobody_could_place_falls_into_the_bucket() {
    assert_eq!(GameGroup::Other, GameGroup::classify(facts("Hades"), &GameOrigins::default()));
}

/// The bucket is always last on screen, even when large.
#[test]
fn the_bucket_sorts_last() {
    let mut groups = [
        GameGroup::Other,
        GameGroup::Custom,
        GameGroup::Store(Store::Steam),
        GameGroup::Emulator(App::Xenia),
    ];
    groups.sort();

    assert_eq!(GameGroup::Emulator(App::Xenia), groups[0]);
    assert_eq!(GameGroup::Other, groups[3]);
}

// Beyond the scenarios above.

#[test]
fn the_facts_come_from_the_recorded_sources() {
    let adjusted = Game { sources: vec![Source::Primary, Source::Custom] };
    let made = Game { sources: vec![Source::Custom] };
    let a = GameFacts::of("Hades", &adjusted, None);
    assert!(a.customized && a.in_manifest);
    let m = GameFacts::of("Meu jogo", &made, Some(App::DuckStation));
    assert!(m.customized && !m.in_manifest);
    assert_eq!(Some(App::DuckStation), m.emulator);
}

#[test]
fn labels_name_the_group() {
    assert_eq!("Eden", GameGroup::Emulator(App::Eden).label());
    assert_eq!("GogGalaxy", GameGroup::Store(Store::GogGalaxy).label());
    assert_eq!("Custom", GameGroup::Custom.label());
    assert_eq!("Other", GameGroup::Other.label());
}

#[test]
fn the_report_counts_each_group_and_the_unattributed_share() {
    let report = SourcesReport::new(vec![
        ("Hades".to_string(), GameGroup::Store(Store::Steam)),
        ("Celeste".to_string(), GameGroup::Other),
        ("DuckStation SLUS-00067".to_string(), GameGroup::Emulator(App::DuckStation)),
        ("Braid".to_string(), GameGroup::Store(Store::Steam)),
    ]);

    assert_eq!(25, report.unattributed_percent);
    assert_eq!(
        vec![("DuckStation".to_string(), 1), ("Other".to_string(), 1), ("Steam".to_string(), 2)],
        report.totals
    );
    let text = report.render();
    let expected = format!(
        "{:<24}  Hades\n{:<24}  Celeste\n{:<24}  DuckStation SLUS-00067\n{:<24}  Braid\n\nTotals:\n  {:<24}  1\n  {:<24}  1\n  {:<24}  2\n\n4 game(s), 25% with no source attributed.\n",
        "Steam", "Other", "DuckStation", "Steam", "DuckStation", "Other", "Steam"
    );
    assert_eq!(expected, text);
}

#[test]
fn an_empty_report_attributes_nothing() {
    let report = SourcesReport::new(Vec::new());
    assert_eq!(0, report.unattributed_percent);
    assert_eq!("\nTotals:\n\n0 game(s), 0% with no source attributed.\n", report.render());
}

#[test]
fn groups_compare_in_screen_order() {
    assert!(GameGroup::Emulator(App::Xenia) < GameGroup::Store(Store::Ea));
    assert!(GameGroup::Store(Store::Emulator) < GameGroup::Custom);
    assert!(GameGroup::Custom < GameGroup::Other);
    assert!(GameGroup::Store(Store::Epic) < GameGroup::Store(Store::Steam));
    let all = [
        GameGroup::Other,
        GameGroup::Store(Store::Uplay),
        GameGroup::Emulator(App::Pcsx2),
        GameGroup::Custom,
        GameGroup::Store(Store::Gog),
        GameGroup::Emulator(App::Ppsspp),
    ];
    for a in all {
        for b in all {
            assert_eq!(Some(a.cmp(&b)), a.partial_cmp(&b));
        }
    }
}
