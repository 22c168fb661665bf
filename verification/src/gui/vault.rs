//! What the backup folder actually holds, read from the backups themselves.
//!
//! This answers "what do I have stored, and how old is it". The log lists *executions*, so a game
//! that has not changed in months produces no new run and disappears from it entirely; the
//! inventory keeps it, oldest first.
use vstd::prelude::*;

use crate::path::{components, same_place, StrictPath};
use crate::scan::emulator::text::{opt_view, string_from};
use crate::scan::emulator::{lemma_lex_asymmetric, lemma_lex_irreflexive, lemma_lex_transitive, lex_less, lex_lt};

verus! {

/// What one backup did to a game's saves, measured against the backup before it.
///
/// `when` is the backup's instant, in nanoseconds since the Unix epoch.
#[derive(Clone, Debug)]
pub struct Entry {
    pub when: i64,
    pub game: String,
    /// A full backup stands on its own; a differential one only carries what moved.
    pub full: bool,
    pub added: usize,
    pub changed: usize,
    pub removed: usize,
    /// Files the game has after this backup, not files this backup wrote.
    pub files: usize,
    pub bytes: u64,
    pub comment: Option<String>,
    /// The emulator this game's saves came from, when the backup is filed under one.
    pub emulator: Option<String>,
}

pub struct EntryView {
    pub when: i64,
    pub game: Seq<char>,
    pub full: bool,
    pub added: usize,
    pub changed: usize,
    pub removed: usize,
    pub files: usize,
    pub bytes: u64,
    pub comment: Option<Seq<char>>,
    pub emulator: Option<Seq<char>>,
}

impl View for Entry {
    type V = EntryView;

    open spec fn view(&self) -> EntryView {
        EntryView {
            when: self.when,
            game: self.game@,
            full: self.full,
            added: self.added,
            changed: self.changed,
            removed: self.removed,
            files: self.files,
            bytes: self.bytes,
            comment: opt_view(self.comment),
            emulator: opt_view(self.emulator),
        }
    }
}

/// One game in the vault: what is kept for it, and how old the newest copy is.
#[derive(Clone, Debug)]
pub struct Game {
    pub name: String,
    /// The newest backup. This is what the inventory is sorted by, oldest first, because the
    /// oldest is the one worth knowing about.
    pub last_backup: i64,
    pub backups: usize,
    /// Files and bytes as of the newest backup: the state of the game now, not a sum over every
    /// backup ever made, which would count the same save once per copy.
    pub files: usize,
    pub bytes: u64,
    pub emulator: Option<String>,
}

pub struct GameView {
    pub name: Seq<char>,
    pub last_backup: i64,
    pub backups: nat,
    pub files: usize,
    pub bytes: u64,
    pub emulator: Option<Seq<char>>,
}

impl View for Game {
    type V = GameView;

    open spec fn view(&self) -> GameView {
        GameView {
            name: self.name@,
            last_backup: self.last_backup,
            backups: self.backups as nat,
            files: self.files,
            bytes: self.bytes,
            emulator: opt_view(self.emulator),
        }
    }
}

/// Where the game already is among the gathered ones, from `j` on.
pub open spec fn game_index(games: Seq<GameView>, name: Seq<char>, j: int) -> Option<int>
    decreases games.len() - j,
{
    if j >= games.len() || j < 0 {
        None
    } else if games[j].name == name {
        Some(j)
    } else {
        game_index(games, name, j + 1)
    }
}

/// One more backup of a game: counted when the game is known, otherwise the game as this backup
/// left it, since the first one seen is the newest.
pub open spec fn gather_one(games: Seq<GameView>, e: EntryView) -> Seq<GameView> {
    match game_index(games, e.game, 0) {
        Some(k) => games.update(
            k,
            GameView {
                name: games[k].name,
                last_backup: games[k].last_backup,
                backups: games[k].backups + 1,
                files: games[k].files,
                bytes: games[k].bytes,
                emulator: games[k].emulator,
            },
        ),
        None => games.push(
            GameView { name: e.game, last_backup: e.when, backups: 1, files: e.files, bytes: e.bytes, emulator: e.emulator },
        ),
    }
}

pub open spec fn gathered(entries: Seq<EntryView>) -> Seq<GameView>
    decreases entries.len(),
{
    if entries.len() == 0 {
        seq![]
    } else {
        gather_one(gathered(entries.drop_last()), entries.last())
    }
}

/// Older first, and by name among games backed up at the same instant.
pub open spec fn game_before(a: GameView, b: GameView) -> bool {
    a.last_backup < b.last_backup || (a.last_backup == b.last_backup && lex_lt(a.name, b.name))
}

pub open spec fn game_position(s: Seq<GameView>, x: GameView, j: int) -> int
    decreases s.len() - j,
{
    if j >= s.len() || j < 0 {
        s.len() as int
    } else if game_before(x, s[j]) {
        j
    } else {
        game_position(s, x, j + 1)
    }
}

pub open spec fn games_in_order(s: Seq<GameView>) -> Seq<GameView>
    decreases s.len(),
{
    if s.len() == 0 {
        s
    } else {
        let t = games_in_order(s.drop_last());
        t.insert(game_position(t, s.last(), 0), s.last())
    }
}

/// The inventory of the backups, which come newest first.
pub open spec fn inventory(entries: Seq<EntryView>) -> Seq<GameView> {
    games_in_order(gathered(entries))
}

proof fn lemma_game_index_bounds(games: Seq<GameView>, name: Seq<char>, j: int)
    requires
        0 <= j,
    ensures
        game_index(games, name, j) matches Some(k) ==> j <= k < games.len() && games[k].name == name,
    decreases games.len() - j,
{
    if j < games.len() {
        lemma_game_index_bounds(games, name, j + 1);
    }
}

proof fn lemma_game_position_bounds(s: Seq<GameView>, x: GameView, j: int)
    requires
        0 <= j <= s.len(),
    ensures
        j <= game_position(s, x, j) <= s.len(),
    decreases s.len() - j,
{
    if j < s.len() {
        lemma_game_position_bounds(s, x, j + 1);
    }
}

proof fn lemma_gathered_counts(entries: Seq<EntryView>)
    ensures
        forall|k: int| 0 <= k < gathered(entries).len() ==> (#[trigger] gathered(entries)[k]).backups <= entries.len(),
        gathered(entries).len() <= entries.len(),
    decreases entries.len(),
{
    if entries.len() > 0 {
        lemma_gathered_counts(entries.drop_last());
        let g = gathered(entries.drop_last());
        lemma_game_index_bounds(g, entries.last().game, 0);
        match game_index(g, entries.last().game, 0) {
            Some(w) => {
                assert forall|k: int| 0 <= k < gathered(entries).len() implies (#[trigger] gathered(entries)[k]).backups <= entries.len() by {
                    if k != w {
                        assert(gathered(entries)[k] == g[k]);
                    }
                }
            },
            None => {
                assert forall|k: int| 0 <= k < gathered(entries).len() implies (#[trigger] gathered(entries)[k]).backups <= entries.len() by {
                    if k < g.len() {
                        assert(gathered(entries)[k] == g[k]);
                    }
                }
            },
        }
    }
}

fn text_equal(a: &String, b: &String) -> (r: bool)
    ensures
        r == (a@ == b@),
{
    a.eq(b)
}

fn clone_text(t: &Option<String>) -> (r: Option<String>)
    ensures
        opt_view(r) == opt_view(*t),
{
    match t {
        Some(s) => Some(s.clone()),
        None => None,
    }
}

/// Whether `a` goes before `b` in the inventory.
fn goes_before(a: &Game, b: &Game) -> (r: bool)
    ensures
        r == game_before(a@, b@),
{
    if a.last_backup < b.last_backup {
        return true;
    }
    if a.last_backup > b.last_backup {
        return false;
    }
    let x = crate::scan::emulator::text::chars_of(a.name.as_str());
    let y = crate::scan::emulator::text::chars_of(b.name.as_str());
    lex_less(&x, &y)
}

/// The inventory: one row per game, oldest backup first.
///
/// Oldest first is the whole point of the ordering. A list sorted by name answers "is X in
/// there"; sorted by age it answers "what have I not backed up in a long time", which is the
/// question a backup tool exists to keep you from having to ask yourself.
///
/// The backups come newest first, as the walk of the backup folder returns them.
pub fn games(entries: &Vec<Entry>) -> (r: Vec<Game>)
    ensures
        r@.map_values(|g: Game| g@) == inventory(entries@.map_values(|e: Entry| e@)),
{
    let ghost ev = entries@.map_values(|e: Entry| e@);
    let mut by_game: Vec<Game> = Vec::new();
    let mut i: usize = 0;
    assert(ev.take(0) =~= Seq::<EntryView>::empty());
    assert(by_game@.map_values(|g: Game| g@) =~= Seq::<GameView>::empty());
    while i < entries.len()
        invariant
            i <= entries.len(),
            ev == entries@.map_values(|e: Entry| e@),
            by_game@.map_values(|g: Game| g@) == gathered(ev.take(i as int)),
        decreases entries.len() - i,
    {
        let ghost gv = by_game@.map_values(|g: Game| g@);
        assert(ev.take(i + 1).drop_last() == ev.take(i as int));
        assert(ev.take(i + 1).last() == entries@[i as int]@);
        proof {
            lemma_gathered_counts(ev.take(i as int));
            lemma_game_index_bounds(gv, entries@[i as int].game@, 0);
        }
        let e = &entries[i];
        let mut k: usize = 0;
        let mut at: Option<usize> = None;
        while k < by_game.len() && at.is_none()
            invariant
                k <= by_game.len(),
                gv == by_game@.map_values(|g: Game| g@),
                at is None ==> game_index(gv, e.game@, 0) == game_index(gv, e.game@, k as int),
                at matches Some(w) ==> game_index(gv, e.game@, 0) == Some(w as int),
            decreases by_game.len() - k + if at is None { 1int } else { 0int },
        {
            assert(gv[k as int].name == by_game@[k as int].name@);
            if text_equal(&by_game[k].name, &e.game) {
                at = Some(k);
            } else {
                k = k + 1;
            }
        }
        match at {
            Some(w) => {
                assert(gv[w as int].backups <= i);
                let old_game = by_game.remove(w);
                let updated = Game {
                    name: old_game.name,
                    last_backup: old_game.last_backup,
                    backups: old_game.backups + 1,
                    files: old_game.files,
                    bytes: old_game.bytes,
                    emulator: old_game.emulator,
                };
                by_game.insert(w, updated);
                assert(by_game@.map_values(|g: Game| g@) =~= gather_one(gv, e@));
            },
            None => {
                let game = Game {
                    name: e.game.clone(),
                    last_backup: e.when,
                    backups: 1,
                    files: e.files,
                    bytes: e.bytes,
                    emulator: clone_text(&e.emulator),
                };
                by_game.push(game);
                assert(by_game@.map_values(|g: Game| g@) =~= gather_one(gv, e@));
            },
        }
        i = i + 1;
    }
    assert(ev.take(i as int) =~= ev);
    let ghost all = by_game@.map_values(|g: Game| g@);
    let mut sorted: Vec<Game> = Vec::new();
    let mut rest = by_game;
    let mut m: usize = 0;
    assert forall|k: int| 0 <= k < rest@.len() implies (#[trigger] rest@[k])@ == all[0 + k] by {
        assert(all[k] == rest@[k]@);
    }
    assert(all.take(0) =~= Seq::<GameView>::empty());
    assert(sorted@.map_values(|g: Game| g@) =~= Seq::<GameView>::empty());
    let n = rest.len();
    while m < n
        invariant
            m <= n,
            n == all.len(),
            rest@.len() == n - m,
            forall|k: int| 0 <= k < rest@.len() ==> (#[trigger] rest@[k])@ == all[m + k],
            sorted@.map_values(|g: Game| g@) == games_in_order(all.take(m as int)),
        decreases n - m,
    {
        // `rest` holds the games not placed yet, in the order they were gathered.
        let x = rest.remove(0);
        assert(x@ == all[m as int]);
        assert(all.take(m + 1).drop_last() == all.take(m as int));
        assert(all.take(m + 1).last() == all[m as int]);
        let ghost t = sorted@.map_values(|g: Game| g@);
        let mut j: usize = 0;
        while j < sorted.len() && !goes_before(&x, &sorted[j])
            invariant
                j <= sorted.len(),
                t == sorted@.map_values(|g: Game| g@),
                game_position(t, x@, 0) == game_position(t, x@, j as int),
            decreases sorted.len() - j,
        {
            j = j + 1;
        }
        proof {
            lemma_game_position_bounds(t, x@, 0);
        }
        let ghost xv = x@;
        sorted.insert(j, x);
        assert(sorted@.map_values(|g: Game| g@) =~= t.insert(j as int, xv));
        m = m + 1;
    }
    assert(all.take(m as int) =~= all);
    sorted
}

/// A file as a backup records it.
#[derive(Clone, Debug, PartialEq, Eq)]
pub struct StoredFile {
    pub hash: String,
    pub size: u64,
}

pub type FileView = (Seq<char>, u64);

impl View for StoredFile {
    type V = FileView;

    open spec fn view(&self) -> FileView {
        (self.hash@, self.size)
    }
}

/// What one backup of a game holds.
#[derive(Clone, Debug, PartialEq, Eq)]
pub enum StoredBackup {
    /// Every file the game had, by path; each path once.
    Full { files: Vec<(String, StoredFile)> },
    /// Only what moved since the backup before it, by path, each path once; `None` for a file
    /// that was removed.
    Differential { files: Vec<(String, Option<StoredFile>)> },
}

/// One backup of a game, as the backup folder holds it.
#[derive(Clone, Debug, PartialEq, Eq)]
pub struct BackupRecord {
    /// Nanoseconds since the Unix epoch.
    pub when: i64,
    pub comment: Option<String>,
    pub contents: StoredBackup,
}

/// A game of the backup folder and its backups, oldest first.
#[derive(Clone, Debug, PartialEq, Eq)]
pub struct GameBackups {
    pub name: String,
    /// The emulator folder the game is filed under, when it is.
    pub emulator: Option<String>,
    pub backups: Vec<BackupRecord>,
}

pub type StateView = Seq<(Seq<char>, FileView)>;

/// The file the state has at a path, from the `k`-th entry on.
pub open spec fn state_get(st: StateView, path: Seq<char>, k: int) -> Option<FileView>
    decreases st.len() - k,
{
    if k >= st.len() || k < 0 {
        None
    } else if st[k].0 == path {
        Some(st[k].1)
    } else {
        state_get(st, path, k + 1)
    }
}

pub open spec fn state_has(st: StateView, path: Seq<char>) -> bool {
    state_get(st, path, 0) is Some
}

/// The state with the file at the path set, in place when the path is there.
pub open spec fn state_set(st: StateView, path: Seq<char>, f: FileView) -> StateView {
    match state_index(st, path, 0) {
        Some(k) => st.update(k, (path, f)),
        None => st.push((path, f)),
    }
}

pub open spec fn state_index(st: StateView, path: Seq<char>, k: int) -> Option<int>
    decreases st.len() - k,
{
    if k >= st.len() || k < 0 {
        None
    } else if st[k].0 == path {
        Some(k)
    } else {
        state_index(st, path, k + 1)
    }
}

/// The state without the path.
pub open spec fn state_without(st: StateView, path: Seq<char>) -> StateView {
    match state_index(st, path, 0) {
        Some(k) => st.remove(k),
        None => st,
    }
}

/// The counts of added, changed and removed files, and the state after.
pub type Step = (nat, nat, nat, StateView);

/// A file of a backup measured against the state: new, or changed when its hash differs.
pub open spec fn measure(st: StateView, path: Seq<char>, f: FileView, added: nat, changed: nat) -> (nat, nat) {
    match state_get(st, path, 0) {
        None => (added + 1, changed),
        Some(prev) => if prev.0 != f.0 { (added, changed + 1) } else { (added, changed) },
    }
}

/// What the first `n` files of a full backup add and change against the state before it.
pub open spec fn full_counts(st: StateView, files: Seq<(Seq<char>, FileView)>, n: int) -> (nat, nat)
    decreases n,
{
    if n <= 0 {
        (0, 0)
    } else {
        let (a, c) = full_counts(st, files, n - 1);
        measure(st, files[n - 1].0, files[n - 1].1, a, c)
    }
}

/// Whether a full backup lists the path.
pub open spec fn lists(files: Seq<(Seq<char>, FileView)>, path: Seq<char>) -> bool {
    exists|k: int| 0 <= k < files.len() && (#[trigger] files[k]).0 == path
}

/// How many of the first `n` files of the state a full backup no longer lists.
pub open spec fn dropped(st: StateView, files: Seq<(Seq<char>, FileView)>, n: int) -> nat
    decreases n,
{
    if n <= 0 {
        0
    } else {
        dropped(st, files, n - 1) + if lists(files, st[n - 1].0) { 0nat } else { 1nat }
    }
}

/// What a full backup did: its files against the state before it, and the files it no longer
/// has; after it, the state is its files.
pub open spec fn full_step(st: StateView, files: Seq<(Seq<char>, FileView)>) -> Step {
    let (a, c) = full_counts(st, files, files.len() as int);
    (a, c, dropped(st, files, st.len() as int), files)
}

/// What the first `n` files of a differential backup did, one after the other.
pub open spec fn diff_step(st: StateView, files: Seq<(Seq<char>, Option<FileView>)>, n: int) -> Step
    decreases n,
{
    if n <= 0 {
        (0, 0, 0, st)
    } else {
        let (a, c, r, s) = diff_step(st, files, n - 1);
        let path = files[n - 1].0;
        match files[n - 1].1 {
            Some(f) => {
                let (a2, c2) = measure(s, path, f, a, c);
                (a2, c2, r, state_set(s, path, f))
            },
            None => if state_has(s, path) {
                (a, c, r + 1, state_without(s, path))
            } else {
                (a, c, r, s)
            },
        }
    }
}

pub open spec fn total_size(st: StateView) -> nat
    decreases st.len(),
{
    if st.len() == 0 {
        0
    } else {
        total_size(st.drop_last()) + st.last().1.1 as nat
    }
}

pub enum ContentsView {
    Full(Seq<(Seq<char>, FileView)>),
    Differential(Seq<(Seq<char>, Option<FileView>)>),
}

pub open spec fn file_opt_view(f: Option<StoredFile>) -> Option<FileView> {
    match f {
        Some(x) => Some(x@),
        None => None,
    }
}

impl View for StoredBackup {
    type V = ContentsView;

    open spec fn view(&self) -> ContentsView {
        match self {
            StoredBackup::Full { files } => ContentsView::Full(
                files@.map_values(|e: (String, StoredFile)| (e.0@, e.1@)),
            ),
            StoredBackup::Differential { files } => ContentsView::Differential(
                files@.map_values(|e: (String, Option<StoredFile>)| (e.0@, file_opt_view(e.1))),
            ),
        }
    }
}

pub struct RecordView {
    pub when: i64,
    pub comment: Option<Seq<char>>,
    pub contents: ContentsView,
}

impl View for BackupRecord {
    type V = RecordView;

    open spec fn view(&self) -> RecordView {
        RecordView { when: self.when, comment: opt_view(self.comment), contents: self.contents@ }
    }
}

pub open spec fn backup_step(st: StateView, contents: ContentsView) -> Step {
    match contents {
        ContentsView::Full(files) => full_step(st, files),
        ContentsView::Differential(files) => diff_step(st, files, files.len() as int),
    }
}

/// The entries of a game's first `n` backups, each measured against the ones before it, and the
/// files the game has after them.
pub open spec fn replay(
    name: Seq<char>,
    emulator: Option<Seq<char>>,
    backups: Seq<RecordView>,
    n: int,
) -> (Seq<EntryView>, StateView)
    decreases n,
{
    if n <= 0 {
        (seq![], seq![])
    } else {
        let (done, st) = replay(name, emulator, backups, n - 1);
        let b = backups[n - 1];
        let (a, c, r, after) = backup_step(st, b.contents);
        (
            done.push(
                EntryView {
                    when: b.when,
                    game: name,
                    full: b.contents is Full,
                    added: a as usize,
                    changed: c as usize,
                    removed: r as usize,
                    files: after.len() as usize,
                    bytes: total_size(after) as u64,
                    comment: b.comment,
                    emulator,
                },
            ),
            after,
        )
    }
}

/// The sizes of the files a game has never add up past what a `u64` holds, after any of its
/// first `n` backups.
pub open spec fn sizes_fit(name: Seq<char>, emulator: Option<Seq<char>>, backups: Seq<RecordView>, n: int) -> bool
    decreases n,
{
    n <= 0 || (sizes_fit(name, emulator, backups, n - 1) && total_size(replay(name, emulator, backups, n).1) <= u64::MAX)
}

pub struct GameBackupsView {
    pub name: Seq<char>,
    pub emulator: Option<Seq<char>>,
    pub backups: Seq<RecordView>,
}

impl View for GameBackups {
    type V = GameBackupsView;

    open spec fn view(&self) -> GameBackupsView {
        GameBackupsView {
            name: self.name@,
            emulator: opt_view(self.emulator),
            backups: self.backups@.map_values(|b: BackupRecord| b@),
        }
    }
}

/// A backup lists each path once, as a listing keyed by path does.
pub open spec fn lists_each_path_once(contents: ContentsView) -> bool {
    match contents {
        ContentsView::Full(files) => forall|i: int, j: int|
            0 <= i < j < files.len() ==> (#[trigger] files[i]).0 != (#[trigger] files[j]).0,
        ContentsView::Differential(files) => forall|i: int, j: int|
            0 <= i < j < files.len() ==> (#[trigger] files[i]).0 != (#[trigger] files[j]).0,
    }
}

/// Well-formed backups of a game: each of them lists a path at most once.
pub open spec fn backups_well_formed(g: GameBackupsView) -> bool {
    forall|k: int| 0 <= k < g.backups.len() ==> lists_each_path_once(#[trigger] g.backups[k].contents)
}

pub open spec fn game_entries(g: GameBackupsView) -> Seq<EntryView> {
    replay(g.name, g.emulator, g.backups, g.backups.len() as int).0
}

/// The entries of the first `n` games, game after game.
pub open spec fn all_entries(games: Seq<GameBackupsView>, n: int) -> Seq<EntryView>
    decreases n,
{
    if n <= 0 {
        seq![]
    } else {
        all_entries(games, n - 1) + game_entries(games[n - 1])
    }
}

/// Newer first, and by name among backups of the same instant.
pub open spec fn entry_before(a: EntryView, b: EntryView) -> bool {
    a.when > b.when || (a.when == b.when && lex_lt(a.game, b.game))
}

pub open spec fn entry_position(s: Seq<EntryView>, x: EntryView, j: int) -> int
    decreases s.len() - j,
{
    if j >= s.len() || j < 0 {
        s.len() as int
    } else if entry_before(x, s[j]) {
        j
    } else {
        entry_position(s, x, j + 1)
    }
}

pub open spec fn newest_first(s: Seq<EntryView>) -> Seq<EntryView>
    decreases s.len(),
{
    if s.len() == 0 {
        s
    } else {
        let t = newest_first(s.drop_last());
        t.insert(entry_position(t, s.last(), 0), s.last())
    }
}

pub open spec fn vault_entries(games: Seq<GameBackupsView>) -> Seq<EntryView> {
    newest_first(all_entries(games, games.len() as int))
}

pub open spec fn state_view(st: Seq<(String, StoredFile)>) -> StateView {
    st.map_values(|e: (String, StoredFile)| (e.0@, e.1@))
}

proof fn lemma_get_is_index(st: StateView, path: Seq<char>, k: int)
    requires
        0 <= k,
    ensures
        state_get(st, path, k) == match state_index(st, path, k) {
            Some(i) => Some(st[i].1),
            None => None,
        },
        state_index(st, path, k) matches Some(i) ==> k <= i < st.len() && st[i].0 == path,
    decreases st.len() - k,
{
    if k < st.len() {
        lemma_get_is_index(st, path, k + 1);
    }
}

fn find_path(st: &Vec<(String, StoredFile)>, path: &String) -> (r: Option<usize>)
    ensures
        match r {
            Some(k) => state_index(state_view(st@), path@, 0) == Some(k as int),
            None => state_index(state_view(st@), path@, 0) is None,
        },
{
    let ghost sv = state_view(st@);
    let mut k: usize = 0;
    while k < st.len()
        invariant
            k <= st.len(),
            sv == state_view(st@),
            state_index(sv, path@, 0) == state_index(sv, path@, k as int),
        decreases st.len() - k,
    {
        assert(sv[k as int].0 == st@[k as int].0@);
        if text_equal(&st[k].0, path) {
            return Some(k);
        }
        k = k + 1;
    }
    None
}

fn clone_file(f: &StoredFile) -> (r: StoredFile)
    ensures
        r@ == f@,
{
    StoredFile { hash: f.hash.clone(), size: f.size }
}

fn file_measure(st: &Vec<(String, StoredFile)>, path: &String, f: &StoredFile, added: usize, changed: usize) -> (r: (usize, usize))
    requires
        added + changed < usize::MAX,
    ensures
        (r.0 as nat, r.1 as nat) == measure(state_view(st@), path@, f@, added as nat, changed as nat),
        r.0 + r.1 <= added + changed + 1,
{
    proof {
        lemma_get_is_index(state_view(st@), path@, 0);
    }
    match find_path(st, path) {
        None => (added + 1, changed),
        Some(k) => {
            assert(state_view(st@)[k as int].1 == st@[k as int].1@);
            if text_equal(&st[k].1.hash, &f.hash) {
                (added, changed)
            } else {
                (added, changed + 1)
            }
        },
    }
}

fn listed(files: &Vec<(String, StoredFile)>, path: &String) -> (r: bool)
    ensures
        r == lists(state_view(files@), path@),
{
    let ghost fv = state_view(files@);
    let mut k: usize = 0;
    while k < files.len()
        invariant
            k <= files.len(),
            fv == state_view(files@),
            forall|j: int| 0 <= j < k ==> (#[trigger] fv[j]).0 != path@,
        decreases files.len() - k,
    {
        assert(fv[k as int].0 == files@[k as int].0@);
        if text_equal(&files[k].0, path) {
            return true;
        }
        k = k + 1;
    }
    false
}

fn copy_state(files: &Vec<(String, StoredFile)>) -> (r: Vec<(String, StoredFile)>)
    ensures
        state_view(r@) == state_view(files@),
{
    let mut out: Vec<(String, StoredFile)> = Vec::new();
    let mut k: usize = 0;
    while k < files.len()
        invariant
            k <= files.len(),
            state_view(out@) == state_view(files@).take(k as int),
        decreases files.len() - k,
    {
        let ghost before = state_view(out@);
        out.push((files[k].0.clone(), clone_file(&files[k].1)));
        assert(state_view(out@) =~= before.push(state_view(files@)[k as int]));
        assert(state_view(files@).take(k + 1) =~= state_view(files@).take(k as int).push(state_view(files@)[k as int]));
        k = k + 1;
    }
    assert(state_view(files@).take(k as int) =~= state_view(files@));
    out
}

fn full_replay(st: &Vec<(String, StoredFile)>, files: &Vec<(String, StoredFile)>) -> (r: (usize, usize, usize, Vec<(String, StoredFile)>))
    ensures
        (r.0 as nat, r.1 as nat, r.2 as nat, state_view(r.3@)) == full_step(state_view(st@), state_view(files@)),
{
    let ghost sv = state_view(st@);
    let ghost fv = state_view(files@);
    let mut added: usize = 0;
    let mut changed: usize = 0;
    let mut k: usize = 0;
    while k < files.len()
        invariant
            k <= files.len(),
            sv == state_view(st@),
            fv == state_view(files@),
            (added as nat, changed as nat) == full_counts(sv, fv, k as int),
            added + changed <= k,
        decreases files.len() - k,
    {
        assert(fv[k as int] == (files@[k as int].0@, files@[k as int].1@));
        let (a, c) = file_measure(st, &files[k].0, &files[k].1, added, changed);
        added = a;
        changed = c;
        k = k + 1;
    }
    let mut removed: usize = 0;
    let mut j: usize = 0;
    while j < st.len()
        invariant
            j <= st.len(),
            sv == state_view(st@),
            fv == state_view(files@),
            removed as nat == dropped(sv, fv, j as int),
            removed <= j,
        decreases st.len() - j,
    {
        assert(sv[j as int].0 == st@[j as int].0@);
        if !listed(files, &st[j].0) {
            removed = removed + 1;
        }
        j = j + 1;
    }
    (added, changed, removed, copy_state(files))
}

fn diff_replay(st: Vec<(String, StoredFile)>, files: &Vec<(String, Option<StoredFile>)>) -> (r: (usize, usize, usize, Vec<(String, StoredFile)>))
    ensures
        (r.0 as nat, r.1 as nat, r.2 as nat, state_view(r.3@)) == diff_step(
            state_view(st@),
            files@.map_values(|e: (String, Option<StoredFile>)| (e.0@, file_opt_view(e.1))),
            files@.len() as int,
        ),
{
    let ghost sv = state_view(st@);
    let ghost fv = files@.map_values(|e: (String, Option<StoredFile>)| (e.0@, file_opt_view(e.1)));
    let mut state = st;
    let mut added: usize = 0;
    let mut changed: usize = 0;
    let mut removed: usize = 0;
    let mut k: usize = 0;
    while k < files.len()
        invariant
            k <= files.len(),
            fv == files@.map_values(|e: (String, Option<StoredFile>)| (e.0@, file_opt_view(e.1))),
            (added as nat, changed as nat, removed as nat, state_view(state@)) == diff_step(sv, fv, k as int),
            added + changed + removed <= k,
        decreases files.len() - k,
    {
        let ghost s = state_view(state@);
        let path = &files[k].0;
        assert(fv[k as int] == (files@[k as int].0@, file_opt_view(files@[k as int].1)));
        proof {
            lemma_get_is_index(s, path@, 0);
        }
        match &files[k].1 {
            Some(f) => {
                let (a, c) = file_measure(&state, path, f, added, changed);
                added = a;
                changed = c;
                match find_path(&state, path) {
                    Some(i) => {
                        state.set(i, (path.clone(), clone_file(f)));
                        assert(state_view(state@) =~= s.update(i as int, (path@, f@)));
                    },
                    None => {
                        state.push((path.clone(), clone_file(f)));
                        assert(state_view(state@) =~= s.push((path@, f@)));
                    },
                }
            },
            None => {
                match find_path(&state, path) {
                    Some(i) => {
                        state.remove(i);
                        assert(state_view(state@) =~= s.remove(i as int));
                        removed = removed + 1;
                    },
                    None => {},
                }
            },
        }
        k = k + 1;
    }
    (added, changed, removed, state)
}

fn size_of_state(st: &Vec<(String, StoredFile)>) -> (r: u64)
    requires
        total_size(state_view(st@)) <= u64::MAX,
    ensures
        r == total_size(state_view(st@)),
{
    let ghost sv = state_view(st@);
    let mut total: u64 = 0;
    let mut k: usize = 0;
    assert(sv.take(0) =~= Seq::<(Seq<char>, FileView)>::empty());
    while k < st.len()
        invariant
            k <= st.len(),
            sv == state_view(st@),
            total_size(sv) <= u64::MAX,
            total == total_size(sv.take(k as int)),
        decreases st.len() - k,
    {
        assert(sv.take(k + 1).drop_last() == sv.take(k as int));
        proof {
            lemma_total_size_prefix(sv, k + 1);
        }
        assert(sv[k as int].1.1 == st@[k as int].1.size);
        total = total + st[k].1.size;
        k = k + 1;
    }
    assert(sv.take(k as int) =~= sv);
    total
}

proof fn lemma_total_size_prefix(st: StateView, i: int)
    requires
        0 <= i <= st.len(),
    ensures
        total_size(st.take(i)) <= total_size(st),
    decreases st.len() - i,
{
    if i < st.len() {
        assert(st.take(i + 1).drop_last() == st.take(i));
        lemma_total_size_prefix(st, i + 1);
    } else {
        assert(st.take(i) =~= st);
    }
}

proof fn lemma_sizes_fit_prefix(name: Seq<char>, emulator: Option<Seq<char>>, backups: Seq<RecordView>, k: int, m: int)
    requires
        0 <= k <= m,
        sizes_fit(name, emulator, backups, m),
    ensures
        sizes_fit(name, emulator, backups, k),
    decreases m - k,
{
    if k < m {
        lemma_sizes_fit_prefix(name, emulator, backups, k, m - 1);
    }
}

/// The entries of one game's backups, oldest first.
fn game_entries_of(game: &GameBackups) -> (r: Vec<Entry>)
    requires
        sizes_fit(game@.name, game@.emulator, game@.backups, game@.backups.len() as int),
    ensures
        r@.map_values(|e: Entry| e@) == game_entries(game@),
{
    let ghost g = game@;
    let mut out: Vec<Entry> = Vec::new();
    let mut state: Vec<(String, StoredFile)> = Vec::new();
    let mut n: usize = 0;
    assert(out@.map_values(|e: Entry| e@) =~= Seq::<EntryView>::empty());
    assert(state_view(state@) =~= Seq::<(Seq<char>, FileView)>::empty());
    while n < game.backups.len()
        invariant
            n <= game.backups.len(),
            g == game@,
            sizes_fit(g.name, g.emulator, g.backups, g.backups.len() as int),
            (out@.map_values(|e: Entry| e@), state_view(state@)) == replay(g.name, g.emulator, g.backups, n as int),
        decreases game.backups.len() - n,
    {
        let b = &game.backups[n];
        assert(g.backups[n as int] == b@);
        let ghost before = out@.map_values(|e: Entry| e@);
        let ghost st = state_view(state@);
        proof {
            lemma_sizes_fit_prefix(g.name, g.emulator, g.backups, n + 1, g.backups.len() as int);
        }
        let (added, changed, removed, after) = match &b.contents {
            StoredBackup::Full { files } => full_replay(&state, files),
            StoredBackup::Differential { files } => {
                let current = state;
                diff_replay(current, files)
            },
        };
        assert((added as nat, changed as nat, removed as nat, state_view(after@)) == backup_step(st, b@.contents));
        let bytes = size_of_state(&after);
        let entry = Entry {
            when: b.when,
            game: game.name.clone(),
            full: match &b.contents {
                StoredBackup::Full { files: _ } => true,
                StoredBackup::Differential { files: _ } => false,
            },
            added,
            changed,
            removed,
            files: after.len(),
            bytes,
            comment: clone_text(&b.comment),
            emulator: clone_text(&game.emulator),
        };
        let ghost ev = entry@;
        out.push(entry);
        assert(out@.map_values(|e: Entry| e@) =~= before.push(ev));
        state = after;
        n = n + 1;
    }
    out
}

proof fn lemma_entry_position_bounds(s: Seq<EntryView>, x: EntryView, j: int)
    requires
        0 <= j <= s.len(),
    ensures
        j <= entry_position(s, x, j) <= s.len(),
    decreases s.len() - j,
{
    if j < s.len() {
        lemma_entry_position_bounds(s, x, j + 1);
    }
}

fn entry_goes_before(a: &Entry, b: &Entry) -> (r: bool)
    ensures
        r == entry_before(a@, b@),
{
    if a.when > b.when {
        return true;
    }
    if a.when < b.when {
        return false;
    }
    let x = crate::scan::emulator::text::chars_of(a.game.as_str());
    let y = crate::scan::emulator::text::chars_of(b.game.as_str());
    lex_less(&x, &y)
}

/// Every game's backups measured one against the other, newest backup first.
///
/// Each backup is measured against the state the ones before it left: a full backup stands on its
/// own, and what it no longer has was removed; a differential one carries only what moved, and the
/// rest is inherited. The files and bytes of an entry are the game's after that backup, not what
/// the backup wrote.
pub fn entries(games: &Vec<GameBackups>) -> (r: Vec<Entry>)
    requires
        forall|k: int| 0 <= k < games@.len() ==> backups_well_formed((#[trigger] games@[k])@),
        forall|k: int|
            0 <= k < games@.len() ==> sizes_fit(
                (#[trigger] games@[k])@.name,
                games@[k]@.emulator,
                games@[k]@.backups,
                games@[k]@.backups.len() as int,
            ),
    ensures
        r@.map_values(|e: Entry| e@) == vault_entries(games@.map_values(|g: GameBackups| g@)),
{
    let ghost gv = games@.map_values(|g: GameBackups| g@);
    let mut all: Vec<Entry> = Vec::new();
    let mut k: usize = 0;
    assert(all@.map_values(|e: Entry| e@) =~= Seq::<EntryView>::empty());
    while k < games.len()
        invariant
            k <= games.len(),
            gv == games@.map_values(|g: GameBackups| g@),
            forall|j: int|
                0 <= j < games@.len() ==> sizes_fit(
                    (#[trigger] games@[j])@.name,
                    games@[j]@.emulator,
                    games@[j]@.backups,
                    games@[j]@.backups.len() as int,
                ),
            all@.map_values(|e: Entry| e@) == all_entries(gv, k as int),
        decreases games.len() - k,
    {
        let ghost before = all@.map_values(|e: Entry| e@);
        assert(gv[k as int] == games@[k as int]@);
        let mut more = game_entries_of(&games[k]);
        let ghost mv = more@.map_values(|e: Entry| e@);
        all.append(&mut more);
        assert(all@.map_values(|e: Entry| e@) =~= before + mv);
        k = k + 1;
    }
    let ghost flat = all@.map_values(|e: Entry| e@);
    let n = all.len();
    let mut rest = all;
    let mut sorted: Vec<Entry> = Vec::new();
    let mut m: usize = 0;
    assert(flat.take(0) =~= Seq::<EntryView>::empty());
    assert(sorted@.map_values(|e: Entry| e@) =~= Seq::<EntryView>::empty());
    assert forall|j: int| 0 <= j < rest@.len() implies (#[trigger] rest@[j])@ == flat[0 + j] by {
        assert(flat[j] == rest@[j]@);
    }
    while m < n
        invariant
            m <= n,
            n == flat.len(),
            rest@.len() == n - m,
            forall|j: int| 0 <= j < rest@.len() ==> (#[trigger] rest@[j])@ == flat[m + j],
            sorted@.map_values(|e: Entry| e@) == newest_first(flat.take(m as int)),
        decreases n - m,
    {
        let x = rest.remove(0);
        assert(x@ == flat[m as int]);
        assert(flat.take(m + 1).drop_last() == flat.take(m as int));
        assert(flat.take(m + 1).last() == flat[m as int]);
        let ghost t = sorted@.map_values(|e: Entry| e@);
        let mut j: usize = 0;
        while j < sorted.len() && !entry_goes_before(&x, &sorted[j])
            invariant
                j <= sorted.len(),
                t == sorted@.map_values(|e: Entry| e@),
                entry_position(t, x@, 0) == entry_position(t, x@, j as int),
            decreases sorted.len() - j,
        {
            j = j + 1;
        }
        proof {
            lemma_entry_position_bounds(t, x@, 0);
        }
        let ghost xv = x@;
        sorted.insert(j, x);
        assert(sorted@.map_values(|e: Entry| e@) =~= t.insert(j as int, xv));
        m = m + 1;
    }
    assert(flat.take(m as int) =~= flat);
    sorted
}

/// Each path is in the state once, as a backup records its files.
pub open spec fn paths_unique(st: StateView) -> bool {
    forall|i: int, j: int| 0 <= i < j < st.len() ==> (#[trigger] st[i]).0 != (#[trigger] st[j]).0
}

proof fn lemma_index_of_unique(st: StateView, k: int, j: int)
    requires
        paths_unique(st),
        0 <= j <= k < st.len(),
    ensures
        state_index(st, st[k].0, j) == Some(k),
    decreases k - j,
{
    if j < k {
        assert(st[j].0 != st[k].0);
        lemma_index_of_unique(st, k, j + 1);
    }
}

/// A full backup of exactly the files the game already had reports nothing added, changed or
/// removed, and leaves the game as it was.
pub proof fn the_same_files_again_are_no_change(st: StateView)
    requires
        paths_unique(st),
    ensures
        full_step(st, st) == (0nat, 0nat, 0nat, st),
{
    assert forall|n: int| 0 <= n <= st.len() implies #[trigger] full_counts(st, st, n) == (0nat, 0nat) by {
        lemma_no_counts(st, n);
    }
    lemma_nothing_dropped(st, st.len() as int);
}

proof fn lemma_no_counts(st: StateView, n: int)
    requires
        paths_unique(st),
        0 <= n <= st.len(),
    ensures
        full_counts(st, st, n) == (0nat, 0nat),
    decreases n,
{
    if n > 0 {
        lemma_no_counts(st, n - 1);
        lemma_index_of_unique(st, n - 1, 0);
        lemma_get_is_index(st, st[n - 1].0, 0);
    }
}

proof fn lemma_nothing_dropped(st: StateView, n: int)
    requires
        0 <= n <= st.len(),
    ensures
        dropped(st, st, n) == 0,
    decreases n,
{
    if n > 0 {
        lemma_nothing_dropped(st, n - 1);
        assert(st[n - 1].0 == st[n - 1].0);
        assert(lists(st, st[n - 1].0));
    }
}


proof fn lemma_entry_position_props(t: Seq<EntryView>, x: EntryView, j: int)
    requires
        0 <= j <= t.len(),
    ensures
        forall|k: int| j <= k < entry_position(t, x, j) ==> !entry_before(x, #[trigger] t[k]),
        entry_position(t, x, j) < t.len() ==> entry_before(x, t[entry_position(t, x, j)]),
    decreases t.len() - j,
{
    if j < t.len() {
        lemma_entry_position_props(t, x, j + 1);
    }
}

proof fn lemma_entry_before_order(a: EntryView, b: EntryView, c: EntryView)
    ensures
        !entry_before(a, a),
        !(entry_before(a, b) && entry_before(b, a)),
        entry_before(a, b) && entry_before(b, c) ==> entry_before(a, c),
{
    lemma_lex_irreflexive(a.game);
    lemma_lex_asymmetric(a.game, b.game);
    if entry_before(a, b) && entry_before(b, c) && a.when == b.when && b.when == c.when {
        lemma_lex_transitive(a.game, b.game, c.game);
    }
}

/// No entry comes after one it should come before.
pub open spec fn in_vault_order(s: Seq<EntryView>) -> bool {
    forall|i: int, j: int| 0 <= i < j < s.len() ==> !entry_before(#[trigger] s[j], #[trigger] s[i])
}

proof fn lemma_newest_first(s: Seq<EntryView>)
    ensures
        in_vault_order(newest_first(s)),
        newest_first(s).to_multiset() == s.to_multiset(),
        newest_first(s).len() == s.len(),
    decreases s.len(),
{
    broadcast use vstd::seq_lib::group_to_multiset_ensures;

    if s.len() > 0 {
        let t = newest_first(s.drop_last());
        lemma_newest_first(s.drop_last());
        let x = s.last();
        lemma_entry_position_bounds(t, x, 0);
        lemma_entry_position_props(t, x, 0);
        let p = entry_position(t, x, 0);
        let u = t.insert(p, x);
        assert(u == newest_first(s));
        vstd::seq_lib::to_multiset_insert(t, p, x);
        assert(s =~= s.drop_last().push(x));
        vstd::seq_lib::to_multiset_build(s.drop_last(), x);
        assert forall|i: int, j: int| 0 <= i < j < u.len() implies !entry_before(#[trigger] u[j], #[trigger] u[i]) by {
            if j < p {
                assert(u[i] == t[i] && u[j] == t[j]);
            } else if j == p {
                assert(u[i] == t[i] && u[j] == x);
            } else if i > p {
                assert(u[i] == t[i - 1] && u[j] == t[j - 1]);
            } else if i == p {
                assert(u[i] == x && u[j] == t[j - 1]);
                lemma_entry_before_order(t[j - 1], x, t[p]);
                if j - 1 > p {
                    assert(!entry_before(t[j - 1], t[p]));
                }
                lemma_entry_before_order(x, t[p], x);
            } else {
                assert(u[i] == t[i] && u[j] == t[j - 1]);
            }
        }
    }
}

/// The entries come newest first and, among backups of the same instant, by game name; none is
/// lost and none is made up on the way.
pub proof fn entries_come_newest_first_then_by_game(games: Seq<GameBackupsView>)
    ensures
        in_vault_order(vault_entries(games)),
        vault_entries(games).to_multiset() == all_entries(games, games.len() as int).to_multiset(),
        vault_entries(games).len() == all_entries(games, games.len() as int).len(),
{
    lemma_newest_first(all_entries(games, games.len() as int));
}


/// The emulator folder a game of the backup folder is filed under: the name of the folder the
/// game sits in, unless that folder is the backup folder itself, where plain games sit.
pub open spec fn emulator_folder_of(parent: Seq<char>, base: Option<Seq<char>>) -> Option<Seq<char>> {
    if base is Some && same_place(parent, base->0) {
        None
    } else if components(parent).len() == 0 {
        None
    } else {
        Some(components(parent).last())
    }
}

/// The emulator folder a game is filed under, from the folder the game sits in and the backup
/// folder: an emulator's game is filed one level down, under the emulator's own folder, and
/// comparing the parent with the backup folder is what tells it from a plain game at the top.
pub fn emulator_folder(parent: &StrictPath, base: Option<&StrictPath>) -> (r: Option<String>)
    ensures
        opt_view(r) == emulator_folder_of(parent@, match base {
            Some(b) => Some(b@),
            None => None,
        }),
{
    let parent_is_base = match base {
        Some(b) => parent.equivalent(b),
        None => false,
    };
    if parent_is_base {
        return None;
    }
    let parts = parent.components();
    if parts.len() == 0 {
        None
    } else {
        let last = parts.len() - 1;
        assert(parts@[last as int]@ == components(parent@).last());
        Some(string_from(&parts[last]))
    }
}

} // verus!
