//! What the launchers say they installed, per root.
use vstd::prelude::*;

use crate::manifest::Store;
use crate::path::{replaced, StrictPath};
use crate::scan::emulator::text::chars_of;
use crate::scan::game_group::{found_in, GameOrigins, OriginsView};

verus! {

/// An operating system a launcher says a game is for.
#[derive(Clone, Copy, Debug, PartialEq, Eq, Structural, Hash, Default)]
pub enum Os {
    Windows,
    Linux,
    Mac,
    #[default]
    Other,
}

/// A root the launchers were scanned under: its folder and the store it belongs to.
#[derive(Clone, Debug, PartialEq, Eq, Hash)]
pub struct LauncherRoot {
    pub path: StrictPath,
    pub store: Store,
    /// The root belongs to one game only, so it holds no launcher library.
    pub game_specific: bool,
}

/// What a launcher knows of an installed game.
#[derive(Debug, Clone, PartialEq, Eq, Hash)]
pub struct LauncherGame {
    pub install_dir: Option<StrictPath>,
    pub prefix: Option<StrictPath>,
    pub platform: Option<Os>,
}

pub type LauncherGameView = (Option<Seq<char>>, Option<Seq<char>>, Option<Os>);

pub open spec fn path_view(p: Option<StrictPath>) -> Option<Seq<char>> {
    match p {
        Some(x) => Some(x@),
        None => None,
    }
}

impl View for LauncherGame {
    type V = LauncherGameView;

    open spec fn view(&self) -> LauncherGameView {
        (path_view(self.install_dir), path_view(self.prefix), self.platform)
    }
}

/// A path, when there is one, with `old` swapped for `new`.
pub open spec fn replaced_opt(p: Option<Seq<char>>, old: Seq<char>, new: Seq<char>) -> Option<Seq<char>> {
    match p {
        Some(x) => Some(replaced(x, old, new)),
        None => None,
    }
}

fn replace_opt(p: &Option<StrictPath>, old: &StrictPath, new: &StrictPath) -> (r: Option<StrictPath>)
    ensures
        path_view(r) == replaced_opt(path_view(*p), old@, new@),
{
    match p {
        Some(x) => Some(x.replace(old, new)),
        None => None,
    }
}

impl LauncherGame {
    /// The same record with `old`, in its install folder and its prefix, swapped for `new`.
    pub fn replace_in_paths(&self, old: &StrictPath, new: &StrictPath) -> (r: Self)
        ensures
            r@ == (
                replaced_opt(self@.0, old@, new@),
                replaced_opt(self@.1, old@, new@),
                self.platform,
            ),
    {
        LauncherGame {
            install_dir: replace_opt(&self.install_dir, old, new),
            prefix: replace_opt(&self.prefix, old, new),
            platform: self.platform,
        }
    }

    /// The launcher knows nothing of the game.
    pub fn is_empty(&self) -> (r: bool)
        ensures
            r == (self.install_dir is None && self.prefix is None && self.platform is None),
    {
        self.install_dir.is_none() && self.prefix.is_none() && self.platform.is_none()
    }
}

pub type LaunchersView = Seq<(Seq<char>, Store, Seq<char>, Seq<LauncherGameView>)>;

/// The games the launchers found, per root: for each root and game, what the launchers know.
#[derive(Clone, Debug, Default)]
pub struct Launchers {
    games: Vec<(LauncherRoot, String, Vec<LauncherGame>)>,
}

impl View for Launchers {
    /// Each root's folder and store, a game, and the launcher records of it.
    type V = LaunchersView;

    closed spec fn view(&self) -> LaunchersView {
        self.games@.map_values(|g: (LauncherRoot, String, Vec<LauncherGame>)| (g.0.path@, g.0.store, g.1@, records_view(g.2)))
    }
}

impl Launchers {
    /// For each entry, in the order of the view, whether its root belongs to one game only.
    pub closed spec fn game_specific_roots(&self) -> Seq<bool> {
        self.games@.map_values(|g: (LauncherRoot, String, Vec<LauncherGame>)| g.0.game_specific)
    }
}

/// What one root's scan found: for each game, what the launchers know of it.
#[derive(Clone, Debug)]
pub struct RootScan {
    pub root: LauncherRoot,
    pub found: Vec<(String, Vec<LauncherGame>)>,
}

pub open spec fn records_view(v: Vec<LauncherGame>) -> Seq<LauncherGameView> {
    v@.map_values(|g: LauncherGame| g@)
}

pub open spec fn known(g: LauncherGameView) -> bool {
    !(g.0 is None && g.1 is None && g.2 is None)
}

/// The first `n` records that say something.
pub open spec fn known_records(s: Seq<LauncherGameView>, n: int) -> Seq<LauncherGameView>
    decreases n,
{
    if n <= 0 {
        seq![]
    } else if known(s[n - 1]) {
        known_records(s, n - 1).push(s[n - 1])
    } else {
        known_records(s, n - 1)
    }
}

/// The records, each distinct one once, in the order they first come, among the first `n`.
pub open spec fn distinct_records(s: Seq<LauncherGameView>, n: int) -> Seq<LauncherGameView>
    decreases n,
{
    if n <= 0 {
        seq![]
    } else {
        let before = distinct_records(s, n - 1);
        if before.contains(s[n - 1]) {
            before
        } else {
            before.push(s[n - 1])
        }
    }
}

/// What the launchers of a root know of a game, as an entry of the listing.
pub type LauncherRow = (Seq<char>, Store, Seq<char>, Seq<LauncherGameView>);

/// The position of the entry for this root and game, from the `k`-th on.
pub open spec fn row_of(l: LaunchersView, path: Seq<char>, store: Store, name: Seq<char>, k: int) -> Option<int>
    decreases l.len() - k,
{
    if k < 0 || k >= l.len() {
        None
    } else if l[k].0 == path && l[k].1 == store && l[k].2 == name {
        Some(k)
    } else {
        row_of(l, path, store, name, k + 1)
    }
}

/// The listing with this entry, which takes the place of the one for the same root and game, as
/// a map's entry does.
pub open spec fn upsert(l: LaunchersView, row: LauncherRow) -> LaunchersView {
    match row_of(l, row.0, row.1, row.2, 0) {
        Some(k) => l.update(k, row),
        None => l.push(row),
    }
}

/// The listing `acc` with the first `n` games one root's scan found: each game with the distinct
/// records that say something, when any does.
pub open spec fn kept_games(
    acc: LaunchersView,
    path: Seq<char>,
    store: Store,
    found: Seq<(Seq<char>, Seq<LauncherGameView>)>,
    n: int,
) -> LaunchersView
    decreases n,
{
    if n <= 0 {
        acc
    } else {
        let before = kept_games(acc, path, store, found, n - 1);
        let known = known_records(found[n - 1].1, found[n - 1].1.len() as int);
        let c = distinct_records(known, known.len() as int);
        if c.len() > 0 {
            upsert(before, (path, store, found[n - 1].0, c))
        } else {
            before
        }
    }
}

/// What the scans leave, root after root: nothing from a root of one game or from an emulator's
/// folder, and, of the rest, each game with the distinct records that say something, when any
/// does. A root scanned again replaces what it said of a game before.
pub open spec fn kept(scans: Seq<(Seq<char>, Store, bool, Seq<(Seq<char>, Seq<LauncherGameView>)>)>, n: int) -> LaunchersView
    decreases n,
{
    if n <= 0 {
        seq![]
    } else {
        let before = kept(scans, n - 1);
        let (path, store, specific, found) = scans[n - 1];
        if specific || store == Store::Emulator {
            before
        } else {
            kept_games(before, path, store, found, found.len() as int)
        }
    }
}

/// Each root and game has one entry, and an entry lists each record once and has one at least.
pub open spec fn listed_once(l: LaunchersView) -> bool {
    &&& forall|i: int, j: int|
        0 <= i < j < l.len() ==> !((#[trigger] l[i]).0 == (#[trigger] l[j]).0 && l[i].1 == l[j].1 && l[i].2 == l[j].2)
    &&& forall|i: int| 0 <= i < l.len() ==> (#[trigger] l[i]).3.no_duplicates() && l[i].3.len() > 0
}

pub open spec fn scans_view(scans: Seq<RootScan>) -> Seq<(Seq<char>, Store, bool, Seq<(Seq<char>, Seq<LauncherGameView>)>)> {
    scans.map_values(
        |s: RootScan| (s.root.path@, s.root.store, s.root.game_specific, s.found@.map_values(|f: (String, Vec<LauncherGame>)| (f.0@, records_view(f.1)))),
    )
}

/// The stores of every game, one entry per root and game.
pub open spec fn stores_view(l: LaunchersView) -> OriginsView {
    l.map_values(|g: (Seq<char>, Store, Seq<char>, Seq<LauncherGameView>)| (g.2, g.1))
}

fn same_text(a: &String, b: &String) -> (r: bool)
    ensures
        r == (a@ == b@),
{
    a.eq(b)
}

fn keep_known(records: &Vec<LauncherGame>) -> (r: Vec<LauncherGame>)
    ensures
        records_view(r) == known_records(records_view(*records), records@.len() as int),
{
    let ghost rv = records_view(*records);
    let mut out: Vec<LauncherGame> = Vec::new();
    let mut i: usize = 0;
    assert(records_view(out) =~= Seq::<LauncherGameView>::empty());
    while i < records.len()
        invariant
            i <= records.len(),
            rv == records_view(*records),
            records_view(out) == known_records(rv, i as int),
        decreases records.len() - i,
    {
        let ghost before = records_view(out);
        assert(rv[i as int] == records@[i as int]@);
        if !records[i].is_empty() {
            let g = LauncherGame {
                install_dir: match &records[i].install_dir {
                    Some(p) => Some(p.clone()),
                    None => None,
                },
                prefix: match &records[i].prefix {
                    Some(p) => Some(p.clone()),
                    None => None,
                },
                platform: records[i].platform,
            };
            let ghost gv = g@;
            out.push(g);
            assert(records_view(out) =~= before.push(gv));
        }
        i = i + 1;
    }
    out
}

fn same_opt_path(a: &Option<StrictPath>, b: &Option<StrictPath>) -> (r: bool)
    ensures
        r == (path_view(*a) == path_view(*b)),
{
    match (a, b) {
        (Some(x), Some(y)) => same_path(x, y),
        (None, None) => true,
        _ => false,
    }
}

fn same_record(a: &LauncherGame, b: &LauncherGame) -> (r: bool)
    ensures
        r == (a@ == b@),
{
    let platform = match (a.platform, b.platform) {
        (Some(x), Some(y)) => x == y,
        (None, None) => true,
        _ => false,
    };
    platform && same_opt_path(&a.install_dir, &b.install_dir) && same_opt_path(&a.prefix, &b.prefix)
}

fn copy_record(g: &LauncherGame) -> (r: LauncherGame)
    ensures
        r@ == g@,
{
    LauncherGame {
        install_dir: match &g.install_dir {
            Some(p) => Some(p.clone()),
            None => None,
        },
        prefix: match &g.prefix {
            Some(p) => Some(p.clone()),
            None => None,
        },
        platform: g.platform,
    }
}

fn holds_record(v: &Vec<LauncherGame>, g: &LauncherGame) -> (r: bool)
    ensures
        r == records_view(*v).contains(g@),
{
    let ghost rv = records_view(*v);
    let mut i: usize = 0;
    while i < v.len()
        invariant
            i <= v.len(),
            rv == records_view(*v),
            forall|k: int| 0 <= k < i ==> rv[k] != g@,
        decreases v.len() - i,
    {
        assert(rv[i as int] == v@[i as int]@);
        if same_record(&v[i], g) {
            return true;
        }
        i = i + 1;
    }
    false
}

fn distinct(records: &Vec<LauncherGame>) -> (r: Vec<LauncherGame>)
    ensures
        records_view(r) == distinct_records(records_view(*records), records@.len() as int),
{
    let ghost rv = records_view(*records);
    let mut out: Vec<LauncherGame> = Vec::new();
    let mut i: usize = 0;
    assert(records_view(out) =~= Seq::<LauncherGameView>::empty());
    while i < records.len()
        invariant
            i <= records.len(),
            rv == records_view(*records),
            records_view(out) == distinct_records(rv, i as int),
        decreases records.len() - i,
    {
        let ghost before = records_view(out);
        assert(rv[i as int] == records@[i as int]@);
        if !holds_record(&out, &records[i]) {
            let g = copy_record(&records[i]);
            out.push(g);
            assert(records_view(out) =~= before.push(rv[i as int]));
        }
        i = i + 1;
    }
    out
}

pub open spec fn rows_view(games: Seq<(LauncherRoot, String, Vec<LauncherGame>)>) -> LaunchersView {
    games.map_values(|g: (LauncherRoot, String, Vec<LauncherGame>)| (g.0.path@, g.0.store, g.1@, records_view(g.2)))
}

/// The position of the entry for this root and game.
fn find_row(games: &Vec<(LauncherRoot, String, Vec<LauncherGame>)>, path: &StrictPath, store: Store, name: &String) -> (r: Option<usize>)
    ensures
        match r {
            Some(k) => row_of(rows_view(games@), path@, store, name@, 0) == Some(k as int),
            None => row_of(rows_view(games@), path@, store, name@, 0) is None,
        },
{
    let ghost l = rows_view(games@);
    let mut i: usize = 0;
    while i < games.len()
        invariant
            i <= games.len(),
            l == rows_view(games@),
            row_of(l, path@, store, name@, 0) == row_of(l, path@, store, name@, i as int),
        decreases games.len() - i,
    {
        assert(l[i as int] == (games@[i as int].0.path@, games@[i as int].0.store, games@[i as int].1@, records_view(games@[i as int].2)));
        if games[i].0.store == store && same_path(&games[i].0.path, path) && same_text(&games[i].1, name) {
            return Some(i);
        }
        i = i + 1;
    }
    None
}

impl Launchers {
    /// Gathers what the launchers of each root found.
    ///
    /// A root of a single game holds no launcher library. An emulator's data folder has no games
    /// to discover by folder name: letting the folder-name scan loose in there would match `bios`,
    /// `covers` and `cache` against real titles and invent games that do not exist. Records that
    /// say nothing are dropped, and so is a game left with none; a record said twice counts once,
    /// and a root scanned again replaces what it said of a game before, as a map does.
    pub fn scan(scans: Vec<RootScan>) -> (r: Launchers)
        ensures
            r@ == kept(scans_view(scans@), scans@.len() as int),
            listed_once(r@),
            r.game_specific_roots().len() == r@.len(),
            forall|k: int| 0 <= k < r@.len() ==> !#[trigger] r.game_specific_roots()[k],
    {
        let ghost sv = scans_view(scans@);
        let mut games: Vec<(LauncherRoot, String, Vec<LauncherGame>)> = Vec::new();
        let mut i: usize = 0;
        assert(rows_view(games@) =~= Seq::<LauncherRow>::empty());
        while i < scans.len()
            invariant
                i <= scans.len(),
                sv == scans_view(scans@),
                rows_view(games@) == kept(sv, i as int),
                forall|k: int| 0 <= k < games@.len() ==> !(#[trigger] games@[k]).0.game_specific,
            decreases scans.len() - i,
        {
            let scan = &scans[i];
            let ghost before = rows_view(games@);
            let ghost fv = scan.found@.map_values(|f: (String, Vec<LauncherGame>)| (f.0@, records_view(f.1)));
            assert(sv[i as int] == (scan.root.path@, scan.root.store, scan.root.game_specific, fv));
            if !scan.root.game_specific && scan.root.store != Store::Emulator {
                let mut j: usize = 0;
                while j < scan.found.len()
                    invariant
                        j <= scan.found.len(),
                        fv == scan.found@.map_values(|f: (String, Vec<LauncherGame>)| (f.0@, records_view(f.1))),
                        rows_view(games@) == kept_games(before, scan.root.path@, scan.root.store, fv, j as int),
                        !scan.root.game_specific,
                        forall|k: int| 0 <= k < games@.len() ==> !(#[trigger] games@[k]).0.game_specific,
                    decreases scan.found.len() - j,
                {
                    let ghost mid = rows_view(games@);
                    assert(fv[j as int] == (scan.found@[j as int].0@, records_view(scan.found@[j as int].1)));
                    let known = keep_known(&scan.found[j].1);
                    let records = distinct(&known);
                    if records.len() > 0 {
                        assert(records_view(records).len() == records@.len());
                        let root = LauncherRoot {
                            path: scan.root.path.clone(),
                            store: scan.root.store,
                            game_specific: scan.root.game_specific,
                        };
                        let name = scan.found[j].0.clone();
                        let ghost row = (root.path@, root.store, name@, records_view(records));
                        let at = find_row(&games, &scan.root.path, scan.root.store, &name);
                        proof {
                            lemma_row_of(mid, scan.root.path@, scan.root.store, name@, 0);
                        }
                        match at {
                            Some(k) => {
                                games.set(k, (root, name, records));
                                assert(rows_view(games@) =~= mid.update(k as int, row));
                            },
                            None => {
                                games.push((root, name, records));
                                assert(rows_view(games@) =~= mid.push(row));
                            },
                        }
                    }
                    j = j + 1;
                }
            }
            i = i + 1;
        }
        let r = Launchers { games };
        assert(r.game_specific_roots().len() == r@.len());
        proof {
            a_root_lists_each_game_once(sv, sv.len() as int);
        }
        r
    }

    /// The records of a game under a root; none when the launchers of that root did not find it.
    pub fn get_game(&self, root: &LauncherRoot, game: &String) -> (r: Vec<&LauncherGame>)
        ensures
            r@.map_values(|g: &LauncherGame| g@) == records_of_game(self@, root.path@, root.store, game@, self@.len() as int),
    {
        let ghost lv = self@;
        let mut out: Vec<&LauncherGame> = Vec::new();
        let mut i: usize = 0;
        assert(out@.map_values(|g: &LauncherGame| g@) =~= Seq::<LauncherGameView>::empty());
        while i < self.games.len()
            invariant
                i <= self.games.len(),
                lv == self@,
                lv == self.games@.map_values(|g: (LauncherRoot, String, Vec<LauncherGame>)| (g.0.path@, g.0.store, g.1@, records_view(g.2))),
                out@.map_values(|g: &LauncherGame| g@) == records_of_game(lv, root.path@, root.store, game@, i as int),
            decreases self.games.len() - i,
        {
            let entry = &self.games[i];
            assert(lv[i as int] == (entry.0.path@, entry.0.store, entry.1@, records_view(entry.2)));
            let same_root = entry.0.store == root.store && same_path(&entry.0.path, &root.path);
            let ghost start = out@.map_values(|g: &LauncherGame| g@);
            if same_root && same_text(&entry.1, game) {
                let mut k: usize = 0;
                while k < entry.2.len()
                    invariant
                        k <= entry.2.len(),
                        out@.map_values(|g: &LauncherGame| g@) == start + records_view(entry.2).take(k as int),
                    decreases entry.2.len() - k,
                {
                    let ghost mid = out@.map_values(|g: &LauncherGame| g@);
                    out.push(&entry.2[k]);
                    assert(records_view(entry.2).take(k + 1) =~= records_view(entry.2).take(k as int).push(entry.2@[k as int]@));
                    assert(out@.map_values(|g: &LauncherGame| g@) =~= mid.push(entry.2@[k as int]@));
                    k = k + 1;
                }
                assert(records_view(entry.2).take(k as int) =~= records_view(entry.2));
            } else {
                assert(start + Seq::<LauncherGameView>::empty() =~= start);
            }
            i = i + 1;
        }
        out
    }

    /// Which stores installed each game, as the launchers see it.
    ///
    /// This is the only answer there is to "which store is this game from". Coverage is not total:
    /// a game found by other means does not show here, and whoever reads it has to take an
    /// absence as "not known", never as "local".
    pub fn all_game_stores(&self) -> (r: GameOrigins)
        ensures
            forall|name: Seq<char>, store: Store|
                found_in(r@, name, store) <==> found_in(stores_view(self@), name, store),
    {
        let ghost lv = self@;
        let mut origins = GameOrigins::new();
        let mut i: usize = 0;
        while i < self.games.len()
            invariant
                i <= self.games.len(),
                lv == self@,
                lv == self.games@.map_values(|g: (LauncherRoot, String, Vec<LauncherGame>)| (g.0.path@, g.0.store, g.1@, records_view(g.2))),
                origins@ == stores_view(lv.take(i as int)),
            decreases self.games.len() - i,
        {
            let ghost before = origins@;
            assert(lv[i as int] == (self.games@[i as int].0.path@, self.games@[i as int].0.store, self.games@[i as int].1@, records_view(self.games@[i as int].2)));
            origins.insert(self.games[i].1.clone(), self.games[i].0.store);
            assert(lv.take(i + 1) =~= lv.take(i as int).push(lv[i as int]));
            assert(origins@ =~= stores_view(lv.take(i + 1)));
            i = i + 1;
        }
        assert(lv.take(i as int) =~= lv);
        origins
    }
}

/// The records the first `n` entries hold for this root and game, in order.
pub open spec fn records_of_game(l: LaunchersView, path: Seq<char>, store: Store, game: Seq<char>, n: int) -> Seq<LauncherGameView>
    decreases n,
{
    if n <= 0 {
        seq![]
    } else {
        records_of_game(l, path, store, game, n - 1) + if l[n - 1].0 == path && l[n - 1].1 == store && l[n - 1].2 == game {
            l[n - 1].3
        } else {
            seq![]
        }
    }
}

fn same_path(a: &StrictPath, b: &StrictPath) -> (r: bool)
    ensures
        r == (a@ == b@),
{
    let x = chars_of(a.raw().as_str());
    let y = chars_of(b.raw().as_str());
    if x.len() != y.len() {
        return false;
    }
    let mut i: usize = 0;
    while i < x.len()
        invariant
            x.len() == y.len(),
            x@ == a@,
            y@ == b@,
            i <= x.len(),
            forall|k: int| 0 <= k < i ==> x@[k] == y@[k],
        decreases x.len() - i,
    {
        if x[i] != y[i] {
            assert(x@[i as int] != y@[i as int]);
            return false;
        }
        i = i + 1;
    }
    assert(x@ == y@);
    true
}

proof fn lemma_row_of(l: LaunchersView, path: Seq<char>, store: Store, name: Seq<char>, k: int)
    requires
        0 <= k,
    ensures
        row_of(l, path, store, name, k) matches Some(x) ==> k <= x < l.len() && l[x].0 == path && l[x].1 == store && l[x].2 == name,
        row_of(l, path, store, name, k) is None ==> forall|x: int|
            k <= x < l.len() ==> !((#[trigger] l[x]).0 == path && l[x].1 == store && l[x].2 == name),
    decreases l.len() - k,
{
    if k < l.len() {
        lemma_row_of(l, path, store, name, k + 1);
    }
}

proof fn lemma_distinct_records(s: Seq<LauncherGameView>, n: int)
    requires
        0 <= n <= s.len(),
    ensures
        distinct_records(s, n).no_duplicates(),
    decreases n,
{
    if n > 0 {
        lemma_distinct_records(s, n - 1);
    }
}

/// Every entry of a listing is of a store and has a record that says something.
pub open spec fn rows_hold(l: LaunchersView) -> bool {
    forall|k: int| 0 <= k < l.len() ==> (#[trigger] l[k]).1 != Store::Emulator && l[k].3.len() > 0
}

proof fn lemma_upsert(l: LaunchersView, row: LauncherRow)
    requires
        listed_once(l),
        rows_hold(l),
        row.1 != Store::Emulator,
        row.3.no_duplicates(),
        row.3.len() > 0,
    ensures
        listed_once(upsert(l, row)),
        rows_hold(upsert(l, row)),
{
    lemma_row_of(l, row.0, row.1, row.2, 0);
    let u = upsert(l, row);
    match row_of(l, row.0, row.1, row.2, 0) {
        Some(x) => {
            assert forall|i: int, j: int| 0 <= i < j < u.len() implies !((#[trigger] u[i]).0 == (#[trigger] u[j]).0
                && u[i].1 == u[j].1 && u[i].2 == u[j].2) by {
                if i == x {
                    assert(u[j] == l[j]);
                } else if j == x {
                    assert(u[i] == l[i]);
                } else {
                    assert(u[i] == l[i] && u[j] == l[j]);
                }
            }
            assert forall|i: int| 0 <= i < u.len() implies (#[trigger] u[i]).3.no_duplicates() && u[i].3.len() > 0 by {
                if i != x {
                    assert(u[i] == l[i]);
                }
            }
            assert forall|k: int| 0 <= k < u.len() implies (#[trigger] u[k]).1 != Store::Emulator && u[k].3.len() > 0 by {
                if k != x {
                    assert(u[k] == l[k]);
                }
            }
        },
        None => {
            assert forall|i: int, j: int| 0 <= i < j < u.len() implies !((#[trigger] u[i]).0 == (#[trigger] u[j]).0
                && u[i].1 == u[j].1 && u[i].2 == u[j].2) by {
                if j == l.len() {
                    assert(u[i] == l[i]);
                } else {
                    assert(u[i] == l[i] && u[j] == l[j]);
                }
            }
            assert forall|i: int| 0 <= i < u.len() implies (#[trigger] u[i]).3.no_duplicates() && u[i].3.len() > 0 by {
                if i < l.len() {
                    assert(u[i] == l[i]);
                }
            }
            assert forall|k: int| 0 <= k < u.len() implies (#[trigger] u[k]).1 != Store::Emulator && u[k].3.len() > 0 by {
                if k < l.len() {
                    assert(u[k] == l[k]);
                }
            }
        },
    }
}

proof fn lemma_kept_games(
    acc: LaunchersView,
    path: Seq<char>,
    store: Store,
    found: Seq<(Seq<char>, Seq<LauncherGameView>)>,
    n: int,
)
    requires
        listed_once(acc),
        rows_hold(acc),
        store != Store::Emulator,
    ensures
        listed_once(kept_games(acc, path, store, found, n)),
        rows_hold(kept_games(acc, path, store, found, n)),
    decreases n,
{
    if n > 0 {
        lemma_kept_games(acc, path, store, found, n - 1);
        let known = known_records(found[n - 1].1, found[n - 1].1.len() as int);
        let c = distinct_records(known, known.len() as int);
        lemma_distinct_records(known, known.len() as int);
        if c.len() > 0 {
            lemma_upsert(kept_games(acc, path, store, found, n - 1), (path, store, found[n - 1].0, c));
        }
    }
}

/// An emulator's data folder and a root of a single game add no game, and every game kept has a
/// record that says something.
pub proof fn only_library_roots_add_games(
    scans: Seq<(Seq<char>, Store, bool, Seq<(Seq<char>, Seq<LauncherGameView>)>)>,
    n: int,
)
    ensures
        forall|k: int|
            0 <= k < kept(scans, n).len() ==> (#[trigger] kept(scans, n)[k]).1 != Store::Emulator
                && kept(scans, n)[k].3.len() > 0,
{
    a_root_lists_each_game_once(scans, n);
}

/// The launchers of a root name a game once, as the keys of a map, and list each distinct record
/// of it once, as the members of a set: a root scanned twice, or a record said twice, does not
/// make a game or a record show twice.
pub proof fn a_root_lists_each_game_once(
    scans: Seq<(Seq<char>, Store, bool, Seq<(Seq<char>, Seq<LauncherGameView>)>)>,
    n: int,
)
    ensures
        listed_once(kept(scans, n)),
        rows_hold(kept(scans, n)),
    decreases n,
{
    if n > 0 {
        a_root_lists_each_game_once(scans, n - 1);
        let (path, store, specific, found) = scans[n - 1];
        if !(specific || store == Store::Emulator) {
            lemma_kept_games(kept(scans, n - 1), path, store, found, found.len() as int);
        }
    }
}

} // verus!
