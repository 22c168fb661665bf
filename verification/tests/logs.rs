use savevault::gui::vault::emulator_folder;
use savevault::path::StrictPath;
use savevault::gui::logs::Logs;
use savevault::gui::vault::{games, Entry};

/// Nanoseconds since the epoch of an instant some seconds after a fixed one.
fn at(seconds: i64) -> i64 {
    (1_700_000_000 + seconds) * 1_000_000_000
}

fn entry(when: i64, game: &str) -> Entry {
    Entry {
        when,
        game: game.to_string(),
        full: true,
        added: 1,
        changed: 0,
        removed: 0,
        files: 3,
        bytes: 100,
        comment: None,
        emulator: None,
    }
}

/// The case that matters from this version on: one run stamps every game with one instant.
#[test]
fn gathers_one_run_from_a_shared_timestamp() {
    let runs = Logs::group_into_runs(vec![entry(at(0), "c"), entry(at(0), "a"), entry(at(0), "b")]);

    assert_eq!(1, runs.len());
    assert_eq!(3, runs[0].entries.len());
    // Inside a run the order is the user's, not the thread pool's.
    assert_eq!(
        vec!["a", "b", "c"],
        runs[0].entries.iter().map(|x| x.game.as_str()).collect::<Vec<_>>()
    );
}

/// Backups written before runs had a shared timestamp: seconds apart, still one execution.
#[test]
fn chains_older_backups_that_kept_going() {
    // Newest first, as the walk sorts them.
    let runs = Logs::group_into_runs(vec![
        entry(at(120), "d"),
        entry(at(80), "c"),
        entry(at(40), "b"),
        entry(at(0), "a"),
    ]);

    assert_eq!(1, runs.len(), "40s between each backup is one run that kept working");
    assert_eq!(4, runs[0].entries.len());
}

/// A real pause is a real boundary. This is what a fixed window would get wrong.
#[test]
fn splits_when_the_gap_is_a_pause() {
    let runs = Logs::group_into_runs(vec![entry(at(300), "b"), entry(at(0), "a")]);

    assert_eq!(2, runs.len());
    assert_eq!("b", runs[0].entries[0].game);
    assert_eq!("a", runs[1].entries[0].game);
}

/// The run is stamped with the newest backup in it, which is the one the list is sorted by.
#[test]
fn the_run_carries_the_instant_of_its_first_entry() {
    let runs = Logs::group_into_runs(vec![entry(at(40), "b"), entry(at(0), "a")]);

    assert_eq!(1, runs.len());
    assert_eq!(at(40), runs[0].when);
}

/// The seal: once a run is known to be exact, a nearby run is a different run.
#[test]
fn does_not_swallow_a_second_exact_run_that_happened_moments_later() {
    let runs = Logs::group_into_runs(vec![
        entry(at(60), "a"),
        entry(at(60), "b"),
        entry(at(0), "c"),
        entry(at(0), "d"),
    ]);

    assert_eq!(2, runs.len(), "60s apart, but both stamped their own games");
    assert_eq!(2, runs[0].entries.len());
    assert_eq!(2, runs[1].entries.len());
}

#[test]
fn totals_are_the_sum_of_the_run() {
    let mut second = entry(at(0), "b");
    second.added = 2;
    second.changed = 5;
    second.bytes = 400;

    let runs = Logs::group_into_runs(vec![entry(at(0), "a"), second]);

    assert_eq!(1, runs.len());
    assert_eq!(3, runs[0].added());
    assert_eq!(5, runs[0].changed());
    assert_eq!(500, runs[0].bytes());
}

// Beyond the scenarios above.

/// Exactly the gap still chains; one nanosecond more does not.
#[test]
fn the_gap_is_inclusive() {
    let runs = Logs::group_into_runs(vec![entry(at(90), "b"), entry(at(0), "a")]);
    assert_eq!(1, runs.len());
    let runs = Logs::group_into_runs(vec![entry(at(90) + 1, "b"), entry(at(0), "a")]);
    assert_eq!(2, runs.len());
}

#[test]
fn no_backup_means_no_run() {
    assert!(Logs::group_into_runs(Vec::new()).is_empty());
}

#[test]
fn the_other_totals_of_a_run() {
    let mut second = entry(at(0), "b");
    second.removed = 4;
    second.files = 7;
    let runs = Logs::group_into_runs(vec![entry(at(0), "a"), second]);
    assert_eq!(4, runs[0].removed());
    assert_eq!(10, runs[0].files());
}

/// The inventory has one row per game, oldest newest-backup first, counting every backup.
#[test]
fn the_inventory_lists_each_game_once_oldest_first() {
    let mut newest_b = entry(at(500), "b");
    newest_b.files = 9;
    let inventory = games(&vec![
        newest_b,
        entry(at(400), "a"),
        entry(at(300), "b"),
        entry(at(200), "c"),
        entry(at(100), "a"),
    ]);

    assert_eq!(
        vec!["c", "a", "b"],
        inventory.iter().map(|g| g.name.as_str()).collect::<Vec<_>>()
    );
    assert_eq!(vec![1, 2, 2], inventory.iter().map(|g| g.backups).collect::<Vec<_>>());
    assert_eq!(at(500), inventory[2].last_backup);
    assert_eq!(9, inventory[2].files);
}

#[test]
fn games_backed_up_together_are_listed_by_name() {
    let inventory = games(&vec![entry(at(0), "zelda"), entry(at(0), "hades")]);
    assert_eq!(
        vec!["hades", "zelda"],
        inventory.iter().map(|g| g.name.as_str()).collect::<Vec<_>>()
    );
}

use savevault::gui::vault::{entries, BackupRecord, GameBackups, StoredBackup, StoredFile};

fn stored(hash: &str, size: u64) -> StoredFile {
    StoredFile { hash: hash.to_string(), size }
}

/// A differential backup only names what moved; the rest is inherited from the backups before it.
#[test]
fn each_backup_is_measured_against_the_ones_before_it() {
    let hades = GameBackups {
        name: "Hades".to_string(),
        emulator: None,
        backups: vec![
            BackupRecord {
                when: at(0),
                comment: None,
                contents: StoredBackup::Full {
                    files: vec![("a".to_string(), stored("h1", 10)), ("b".to_string(), stored("h2", 20))],
                },
            },
            BackupRecord {
                when: at(100),
                comment: Some("after the boss".to_string()),
                contents: StoredBackup::Differential {
                    files: vec![
                        ("b".to_string(), Some(stored("h3", 25))),
                        ("c".to_string(), Some(stored("h4", 5))),
                        ("a".to_string(), None),
                    ],
                },
            },
            BackupRecord {
                when: at(200),
                comment: None,
                contents: StoredBackup::Full { files: vec![("c".to_string(), stored("h4", 5))] },
            },
        ],
    };

    let found = entries(&vec![hades]);

    assert_eq!(3, found.len());
    // Newest first.
    assert_eq!(vec![at(200), at(100), at(0)], found.iter().map(|e| e.when).collect::<Vec<_>>());
    let newest = &found[0];
    assert!(newest.full);
    assert_eq!((0, 0, 1, 1, 5), (newest.added, newest.changed, newest.removed, newest.files, newest.bytes));
    let middle = &found[1];
    assert!(!middle.full);
    assert_eq!((1, 1, 1, 2, 30), (middle.added, middle.changed, middle.removed, middle.files, middle.bytes));
    assert_eq!(Some("after the boss".to_string()), middle.comment);
    let oldest = &found[2];
    assert_eq!((2, 0, 0, 2, 30), (oldest.added, oldest.changed, oldest.removed, oldest.files, oldest.bytes));
}

#[test]
fn backups_of_the_same_instant_come_by_game_name() {
    let game = |name: &str| GameBackups {
        name: name.to_string(),
        emulator: Some("DuckStation".to_string()),
        backups: vec![BackupRecord { when: at(0), comment: None, contents: StoredBackup::Full { files: vec![] } }],
    };
    let found = entries(&vec![game("zelda"), game("celeste")]);
    assert_eq!(vec!["celeste", "zelda"], found.iter().map(|e| e.game.as_str()).collect::<Vec<_>>());
    assert_eq!(Some("DuckStation".to_string()), found[0].emulator);
    assert_eq!(0, found[0].files);
}

#[test]
fn the_log_is_read_from_the_backups_and_opens_closed() {
    let game = |name: &str, when: i64| GameBackups {
        name: name.to_string(),
        emulator: None,
        backups: vec![BackupRecord {
            when,
            comment: None,
            contents: StoredBackup::Full { files: vec![("save".to_string(), stored("h", 7))] },
        }],
    };
    let logs = Logs::load(&vec![game("zelda", at(0)), game("hades", at(0)), game("celeste", at(3600))]);
    assert!(logs.loaded);
    assert_eq!(None, logs.opened);
    assert_eq!(2, logs.runs.len());
    assert_eq!(at(3600), logs.runs[0].when);
    assert_eq!(
        vec!["hades", "zelda"],
        logs.runs[1].entries.iter().map(|e| e.game.as_str()).collect::<Vec<_>>()
    );
    assert_eq!(14, logs.runs[1].bytes());
}

#[test]
fn a_game_in_its_own_folder_is_filed_under_that_emulator() {
    let base = StrictPath::new("D:/Backups".to_string());
    assert_eq!(
        Some("DuckStation".to_string()),
        emulator_folder(&StrictPath::new("D:/Backups/DuckStation".to_string()), Some(&base))
    );
    assert_eq!(None, emulator_folder(&StrictPath::new("d:\\backups\\".to_string()), Some(&base)));
    assert_eq!(Some("Backups".to_string()), emulator_folder(&StrictPath::new("D:/Backups".to_string()), None));
}
