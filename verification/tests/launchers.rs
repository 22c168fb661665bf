use savevault::manifest::Store;
use savevault::path::StrictPath;
use savevault::scan::launchers::{LauncherGame, LauncherRoot, Launchers, Os, RootScan};

fn root(path: &str, store: Store) -> LauncherRoot {
    LauncherRoot { path: StrictPath::new(path.to_string()), store, game_specific: false }
}

fn installed(dir: &str) -> LauncherGame {
    LauncherGame { install_dir: Some(StrictPath::new(dir.to_string())), prefix: None, platform: Some(Os::Windows) }
}

fn nothing() -> LauncherGame {
    LauncherGame { install_dir: None, prefix: None, platform: None }
}

#[test]
fn a_record_that_says_nothing_is_empty() {
    assert!(nothing().is_empty());
    assert!(!installed("C:/Games/Hades").is_empty());
    assert!(!LauncherGame { install_dir: None, prefix: None, platform: Some(Os::Linux) }.is_empty());
}

/// An emulator's data folder has no games to discover by folder name, and a root of one game
/// holds no library.
#[test]
fn only_library_roots_add_games() {
    let steam = root("C:/Steam", Store::Steam);
    let heroic = root("C:/Heroic", Store::Heroic);
    let emulator = root("D:/Emus/DuckStation", Store::Emulator);
    let mut single = root("C:/Games/One", Store::Other);
    single.game_specific = true;
    let launchers = Launchers::scan(vec![
        RootScan {
            root: steam.clone(),
            found: vec![
                ("Hades".to_string(), vec![installed("C:/Steam/Hades"), nothing()]),
                ("Ghost".to_string(), vec![nothing()]),
            ],
        },
        RootScan { root: heroic.clone(), found: vec![("Hades".to_string(), vec![installed("C:/Heroic/Hades")])] },
        RootScan { root: emulator.clone(), found: vec![("bios".to_string(), vec![installed("D:/Emus/DuckStation/bios")])] },
        RootScan { root: single.clone(), found: vec![("One".to_string(), vec![installed("C:/Games/One")])] },
    ]);

    assert_eq!(vec![&installed("C:/Steam/Hades")], launchers.get_game(&steam, &"Hades".to_string()));
    assert!(launchers.get_game(&steam, &"Ghost".to_string()).is_empty());
    assert!(launchers.get_game(&emulator, &"bios".to_string()).is_empty());
    assert!(launchers.get_game(&single, &"One".to_string()).is_empty());

    let stores = launchers.all_game_stores();
    assert!(stores.contains("Hades", Store::Steam));
    assert!(stores.contains("Hades", Store::Heroic));
    assert!(!stores.contains("Ghost", Store::Steam));
    assert!(!stores.contains("bios", Store::Emulator));
}

#[test]
fn a_moved_library_moves_the_paths_below_it_and_nothing_else() {
    let old = StrictPath::new("C:/Games".to_string());
    let new = StrictPath::new("D:/Library".to_string());
    let game = LauncherGame {
        install_dir: Some(StrictPath::new("c:\\games\\Hades\\bin".to_string())),
        prefix: Some(StrictPath::new("C:/GamesExtra/pfx".to_string())),
        platform: Some(Os::Linux),
    };
    let moved = game.replace_in_paths(&old, &new);
    assert_eq!(Some("D:/Library/Hades/bin".to_string()), moved.install_dir.map(|p| p.raw()));
    assert_eq!(Some("C:/GamesExtra/pfx".to_string()), moved.prefix.map(|p| p.raw()));
    assert_eq!(Some(Os::Linux), moved.platform);
    let itself = installed("C:/Games").replace_in_paths(&old, &new);
    assert_eq!(Some("D:/Library".to_string()), itself.install_dir.map(|p| p.raw()));
    assert_eq!(None, nothing().replace_in_paths(&old, &new).install_dir);
}

#[test]
fn a_root_of_one_game_keeps_nothing() {
    let mut single = root("C:/Games/Hades", Store::Steam);
    single.game_specific = true;
    let launchers = Launchers::scan(vec![RootScan {
        root: single.clone(),
        found: vec![("Hades".to_string(), vec![installed("C:/Games/Hades")])],
    }]);
    assert!(launchers.get_game(&single, &"Hades".to_string()).is_empty());
}

/// A root configured twice, or a record said twice, does not make a record show twice: the
/// launchers of a root are a map of games to sets of records.
#[test]
fn a_record_said_twice_shows_once() {
    let steam = root("C:/Steam", Store::Steam);
    let launchers = Launchers::scan(vec![
        RootScan {
            root: steam.clone(),
            found: vec![("Hades".to_string(), vec![installed("C:/Steam/Hades"), installed("C:/Steam/Hades")])],
        },
        RootScan { root: steam.clone(), found: vec![("Hades".to_string(), vec![installed("C:/Steam/Hades2")])] },
    ]);
    let found = launchers.get_game(&steam, &"Hades".to_string());
    assert_eq!(1, found.len());
    assert_eq!(Some("C:/Steam/Hades2".to_string()), found[0].install_dir.as_ref().map(|p| p.raw()));
}
