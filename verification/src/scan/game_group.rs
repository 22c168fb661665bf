//! Where a game comes from: the "folder" it shows in, in the list.
//!
//! The list mixes PC and console saves, and with 140 games finding the emulator's is blind
//! scrolling. Grouping needs to answer "where does this game come from", and the answer comes from
//! **two disjoint sources**, never from the game's name:
//!
//! - **emulator**, from what the scan recorded ([`crate::scan::layout::BackupSemantics::emulator`]);
//! - **store**, from the map of installs the launchers found.
use std::cmp::Ordering;
use vstd::prelude::*;
use vstd::std_specs::cmp::PartialOrdSpec;

use crate::manifest::{store_rank, Game, Source, SourceView, Store};
use crate::scan::emulator::text::{chars_of, decimal, decimal_chars, owned, string_from};
use crate::scan::emulator::{app_name, app_rank, lex_less, lex_lt, App};
use crate::scan::game_filter::by_rank;

verus! {

/// A game's group in the list.
///
/// The order of the groups on screen is the order of this declaration: emulators, stores, custom
/// games and, last, the bucket. `Other` is last on purpose: it is what is left, and what is left
/// does not open the screen.
#[derive(Clone, Copy, Debug, PartialEq, Eq, Structural, Ord, Hash)]
pub enum GameGroup {
    Emulator(App),
    Store(Store),
    /// A game that only exists because the user entered it by hand.
    Custom,
    /// No origin could be assigned. It is not "local game": it is "we do not know", and calling
    /// it local would claim what is not known.
    Other,
}

/// Where a group stands on screen: the emulators, then the stores, each in its own order, then
/// the custom games, and the bucket last.
pub open spec fn group_rank(group: GameGroup) -> int {
    match group {
        GameGroup::Emulator(app) => app_rank(app),
        GameGroup::Store(store) => 8 + store_rank(store),
        GameGroup::Custom => 27,
        GameGroup::Other => 28,
    }
}

fn rank_of(group: &GameGroup) -> (r: u8)
    ensures
        r == group_rank(*group),
{
    match group {
        GameGroup::Emulator(app) => app.rank(),
        GameGroup::Store(store) => 8 + store.rank(),
        GameGroup::Custom => 27,
        GameGroup::Other => 28,
    }
}

/// The order of the groups on screen.
impl PartialOrd for GameGroup {
    fn partial_cmp(&self, other: &GameGroup) -> (r: Option<Ordering>) {
        let a = rank_of(self);
        let b = rank_of(other);
        if a < b {
            Some(Ordering::Less)
        } else if a == b {
            Some(Ordering::Equal)
        } else {
            Some(Ordering::Greater)
        }
    }
}

impl vstd::std_specs::cmp::PartialOrdSpecImpl for GameGroup {
    open spec fn obeys_partial_cmp_spec() -> bool {
        true
    }

    open spec fn partial_cmp_spec(&self, other: &GameGroup) -> Option<Ordering> {
        by_rank(group_rank(*self), group_rank(*other))
    }
}

/// The bucket sorts after every other group, and every emulator's group before every store's;
/// only a group is level with itself.
pub proof fn the_bucket_sorts_last(group: GameGroup, app: App, store: Store, other: GameGroup)
    ensures
        group != GameGroup::Other ==> group.partial_cmp_spec(&GameGroup::Other) == Some(Ordering::Less),
        GameGroup::Emulator(app).partial_cmp_spec(&GameGroup::Store(store)) == Some(Ordering::Less),
        GameGroup::Store(store).partial_cmp_spec(&GameGroup::Custom) == Some(Ordering::Less),
        group.partial_cmp_spec(&other) == Some(Ordering::Equal) <==> group == other,
{
}

/// The stores that installed each game, as the launchers found them, once per scan.
#[derive(Clone, Debug, Default)]
pub struct GameOrigins {
    entries: Vec<(String, Store)>,
}

pub type OriginsView = Seq<(Seq<char>, Store)>;

impl View for GameOrigins {
    type V = OriginsView;

    closed spec fn view(&self) -> OriginsView {
        self.entries@.map_values(|e: (String, Store)| (e.0@, e.1))
    }
}

/// The store installed the game.
pub open spec fn found_in(origins: OriginsView, name: Seq<char>, store: Store) -> bool {
    exists|k: int| 0 <= k < origins.len() && #[trigger] origins[k] == (name, store)
}

fn same_text(a: &str, b: &str) -> (r: bool)
    ensures
        r == (a@ == b@),
{
    let x = chars_of(a);
    let y = chars_of(b);
    if x.len() != y.len() {
        assert(x@.len() != y@.len());
        return false;
    }
    let mut i: usize = 0;
    while i < x.len()
        invariant
            x.len() == y.len(),
            x@ == a@,
            y@ == b@,
            i <= x.len(),
            forall|k: int| 0 <= k < i ==> x@[k] == y@[k],
        decreases x.len() - i,
    {
        if x[i] != y[i] {
            assert(x@[i as int] != y@[i as int]);
            return false;
        }
        i = i + 1;
    }
    assert(x@ == y@);
    true
}

impl GameOrigins {
    pub fn new() -> (r: GameOrigins)
        ensures
            r@ == Seq::<(Seq<char>, Store)>::empty(),
    {
        let r = GameOrigins { entries: Vec::new() };
        assert(r@ =~= Seq::<(Seq<char>, Store)>::empty());
        r
    }

    /// Records that a store installed a game.
    pub fn insert(&mut self, name: String, store: Store)
        ensures
            final(self)@ == old(self)@.push((name@, store)),
    {
        let ghost before = self@;
        let ghost n = name@;
        self.entries.push((name, store));
        assert(self@ =~= before.push((n, store)));
    }

    /// The store installed the game.
    pub fn contains(&self, name: &str, store: Store) -> (r: bool)
        ensures
            r == found_in(self@, name@, store),
    {
        let ghost e = self@;
        let mut i: usize = 0;
        while i < self.entries.len()
            invariant
                i <= self.entries.len(),
                e == self@,
                forall|k: int| 0 <= k < i ==> #[trigger] e[k] != (name@, store),
            decreases self.entries.len() - i,
        {
            assert(e[i as int] == (self.entries@[i as int].0@, self.entries@[i as int].1));
            if self.entries[i].1 == store && same_text(self.entries[i].0.as_str(), name) {
                assert(e[i as int] == (name@, store));
                return true;
            }
            i = i + 1;
        }
        false
    }
}

/// Everything the classification needs to know about a game, without depending on the screens.
///
/// It exists so that the rule can be tested alone, and so that the caller has to say where it
/// took each thing from instead of the rule guessing.
#[derive(Clone, Copy, Debug, Default)]
pub struct GameFacts<'a> {
    pub name: &'a str,
    /// The emulator the scan recorded, when it is an emulator's save.
    pub emulator: Option<App>,
    /// The game was entered by hand by the user.
    pub customized: bool,
    /// The game is in the public manifest. Entered by hand **and** absent from the manifest is
    /// what makes a pure custom game.
    pub in_manifest: bool,
}

impl<'a> GameFacts<'a> {
    /// The facts taken from what is recorded for the game, not inferred from its name.
    ///
    /// A game entered by hand carries the custom source, and one from the public manifest carries
    /// the primary one. One with both is a manifest game the user only adjusted, and it still
    /// belongs to its store.
    pub fn of(name: &'a str, game: &Game, emulator: Option<App>) -> (r: Self)
        ensures
            r.name == name,
            r.emulator == emulator,
            r.customized == game@.contains(SourceView::Custom),
            r.in_manifest == game@.contains(SourceView::Primary),
    {
        GameFacts {
            name,
            emulator,
            customized: game.has_source(&Source::Custom),
            in_manifest: game.has_source(&Source::Primary),
        }
    }
}

pub open spec fn all_stores() -> Seq<Store> {
    seq![
        Store::Ea,
        Store::Epic,
        Store::Gog,
        Store::GogGalaxy,
        Store::Heroic,
        Store::Legendary,
        Store::Lutris,
        Store::Microsoft,
        Store::Origin,
        Store::Prime,
        Store::Steam,
        Store::Uplay,
        Store::OtherHome,
        Store::OtherWine,
        Store::OtherWindows,
        Store::OtherLinux,
        Store::OtherMac,
        Store::Other,
        Store::Emulator,
    ]
}

/// The first store of [`all_stores`], from `k` on, that found the game; the emulator root is
/// no store.
pub open spec fn first_store_from(origins: OriginsView, name: Seq<char>, k: int) -> Option<Store>
    decreases 19 - k,
{
    if k >= 19 || k < 0 {
        None
    } else if all_stores()[k] != Store::Emulator && found_in(origins, name, all_stores()[k]) {
        Some(all_stores()[k])
    } else {
        first_store_from(origins, name, k + 1)
    }
}

pub open spec fn primary_store_of(origins: OriginsView, name: Seq<char>) -> Option<Store> {
    first_store_from(origins, name, 0)
}

/// The group of a game, by its facts and the stores that found it.
pub open spec fn group_of(
    name: Seq<char>,
    emulator: Option<App>,
    customized: bool,
    in_manifest: bool,
    origins: OriginsView,
) -> GameGroup {
    match emulator {
        Some(app) => GameGroup::Emulator(app),
        None => if customized && !in_manifest {
            GameGroup::Custom
        } else {
            match primary_store_of(origins, name) {
                Some(store) => GameGroup::Store(store),
                None => GameGroup::Other,
            }
        },
    }
}

fn contains_store(found: &Vec<Store>, store: Store) -> (r: bool)
    ensures
        r == found@.contains(store),
{
    let mut i: usize = 0;
    while i < found.len()
        invariant
            i <= found.len(),
            forall|k: int| 0 <= k < i ==> found@[k] != store,
        decreases found.len() - i,
    {
        if found[i] == store {
            assert(found@[i as int] == store);
            return true;
        }
        i = i + 1;
    }
    false
}

impl GameGroup {
    /// Which group this game belongs to.
    ///
    /// The order of the questions is not arbitrary:
    ///
    /// 1. **emulator first**, because an emulator's save can never land in a store;
    /// 2. pure custom game, the same distinction the list already makes for its "custom" badge;
    /// 3. the store, when the launchers found the install;
    /// 4. the bucket.
    ///
    /// **Never classify by name.** An emulator game's key is `"<Emulator> <identity>"`, so
    /// matching a prefix looks obvious and puts `Eden Ring`, a PC game, inside the Eden emulator.
    pub fn classify(facts: GameFacts, origins: &GameOrigins) -> (r: GameGroup)
        ensures
            r == group_of(facts.name@, facts.emulator, facts.customized, facts.in_manifest, origins@),
    {
        match facts.emulator {
            Some(app) => {
                return GameGroup::Emulator(app);
            },
            None => {},
        }
        if facts.customized && !facts.in_manifest {
            return GameGroup::Custom;
        }
        match GameGroup::primary_store(facts.name, origins) {
            Some(store) => GameGroup::Store(store),
            None => GameGroup::Other,
        }
    }

    /// **One game, one group.** Found in two stores (it happens when Heroic or Lutris point at a
    /// Steam library), it stays in the one with the lower index in [`Store::ALL`], which is stable
    /// across runs. Repeating the row in both groups would break the count and the header's size,
    /// and would make one group's checkbox move the other's.
    fn primary_store(name: &str, origins: &GameOrigins) -> (r: Option<Store>)
        ensures
            r == primary_store_of(origins@, name@),
    {
        let mut k: usize = 0;
        while k < 19
            invariant
                k <= 19,
                first_store_from(origins@, name@, 0) == first_store_from(origins@, name@, k as int),
            decreases 19 - k,
        {
            let store = Store::ALL[k];
            assert(store == all_stores()[k as int]);
            // The emulator root is a `Store` too, and it is no store at all: the group of an
            // emulator's save comes from what the scan recorded, decided before reaching here.
            if store != Store::Emulator && origins.contains(name, store) {
                assert(first_store_from(origins@, name@, k as int) == Some(store));
                return Some(store);
            }
            k = k + 1;
        }
        None
    }

    /// The group's name for a command-line report. The screens use the translation, not this.
    pub fn label(&self) -> (r: String)
        ensures
            r@ == group_label(*self),
    {
        match self {
            GameGroup::Emulator(app) => owned(app.name()),
            GameGroup::Store(store) => owned(store_name(*store)),
            GameGroup::Custom => owned("Custom"),
            GameGroup::Other => owned("Other"),
        }
    }
}

/// A game with emulator facts is always in that emulator's group, whatever the stores say.
pub proof fn the_emulator_wins_over_any_store(
    name: Seq<char>,
    app: App,
    customized: bool,
    in_manifest: bool,
    origins: OriginsView,
)
    ensures
        group_of(name, Some(app), customized, in_manifest, origins) == GameGroup::Emulator(app),
{
}

/// A game without emulator facts is never in an emulator's group, and it is never in the
/// emulator root's "store" group.
pub proof fn a_pc_game_is_never_an_emulator_game(
    name: Seq<char>,
    customized: bool,
    in_manifest: bool,
    origins: OriginsView,
)
    ensures
        !(group_of(name, None, customized, in_manifest, origins) is Emulator),
        group_of(name, None, customized, in_manifest, origins) != GameGroup::Store(Store::Emulator),
{
    lemma_first_store_not_emulator(origins, name, 0);
}

proof fn lemma_first_store_not_emulator(origins: OriginsView, name: Seq<char>, k: int)
    ensures
        first_store_from(origins, name, k) != Some(Store::Emulator),
    decreases 19 - k,
{
    if 0 <= k < 19 {
        lemma_first_store_not_emulator(origins, name, k + 1);
    }
}

pub open spec fn store_label(store: Store) -> &'static str {
    match store {
        Store::Ea => "Ea",
        Store::Epic => "Epic",
        Store::Gog => "Gog",
        Store::GogGalaxy => "GogGalaxy",
        Store::Heroic => "Heroic",
        Store::Legendary => "Legendary",
        Store::Lutris => "Lutris",
        Store::Microsoft => "Microsoft",
        Store::Origin => "Origin",
        Store::Prime => "Prime",
        Store::Steam => "Steam",
        Store::Uplay => "Uplay",
        Store::OtherHome => "OtherHome",
        Store::OtherWine => "OtherWine",
        Store::OtherWindows => "OtherWindows",
        Store::OtherLinux => "OtherLinux",
        Store::OtherMac => "OtherMac",
        Store::Other => "Other",
        Store::Emulator => "Emulator",
    }
}

/// The store's name as its variant is spelled.
fn store_name(store: Store) -> (r: &'static str)
    ensures
        r == store_label(store),
{
    match store {
        Store::Ea => "Ea",
        Store::Epic => "Epic",
        Store::Gog => "Gog",
        Store::GogGalaxy => "GogGalaxy",
        Store::Heroic => "Heroic",
        Store::Legendary => "Legendary",
        Store::Lutris => "Lutris",
        Store::Microsoft => "Microsoft",
        Store::Origin => "Origin",
        Store::Prime => "Prime",
        Store::Steam => "Steam",
        Store::Uplay => "Uplay",
        Store::OtherHome => "OtherHome",
        Store::OtherWine => "OtherWine",
        Store::OtherWindows => "OtherWindows",
        Store::OtherLinux => "OtherLinux",
        Store::OtherMac => "OtherMac",
        Store::Other => "Other",
        Store::Emulator => "Emulator",
    }
}

pub open spec fn group_label(group: GameGroup) -> Seq<char> {
    match group {
        GameGroup::Emulator(app) => app_name(app),
        GameGroup::Store(store) => store_label(store)@,
        GameGroup::Custom => "Custom"@,
        GameGroup::Other => "Other"@,
    }
}

pub type TallyView = Seq<(Seq<char>, nat)>;

/// Where the label already is in the tally, from `j` on.
pub open spec fn label_index(t: TallyView, l: Seq<char>, j: int) -> Option<int>
    decreases t.len() - j,
{
    if j >= t.len() || j < 0 {
        None
    } else if t[j].0 == l {
        Some(j)
    } else {
        label_index(t, l, j + 1)
    }
}

/// Where a new label goes in the tally, from `j` on: before the first greater label.
pub open spec fn label_position(t: TallyView, l: Seq<char>, j: int) -> int
    decreases t.len() - j,
{
    if j >= t.len() || j < 0 {
        t.len() as int
    } else if lex_lt(l, t[j].0) {
        j
    } else {
        label_position(t, l, j + 1)
    }
}

pub open spec fn tally_add(t: TallyView, l: Seq<char>) -> TallyView {
    match label_index(t, l, 0) {
        Some(k) => t.update(k, (l, t[k].1 + 1)),
        None => t.insert(label_position(t, l, 0), (l, 1nat)),
    }
}

/// How many games each label has, ordered by label.
pub open spec fn tally(labels: Seq<Seq<char>>) -> TallyView
    decreases labels.len(),
{
    if labels.len() == 0 {
        seq![]
    } else {
        tally_add(tally(labels.drop_last()), labels.last())
    }
}

/// How many of the labels are this one.
pub open spec fn count_label(labels: Seq<Seq<char>>, l: Seq<char>) -> nat
    decreases labels.len(),
{
    if labels.len() == 0 {
        0
    } else {
        count_label(labels.drop_last(), l) + if labels.last() == l { 1nat } else { 0nat }
    }
}

pub open spec fn percent_of(part: nat, whole: nat) -> nat {
    if whole == 0 {
        0
    } else {
        (part * 100) / whole
    }
}

/// One game of the report and its group.
#[derive(Clone, Debug)]
pub struct SourcesReportGame {
    pub game: String,
    pub group: String,
}

/// What the attribution of origin managed to say about the games of this machine.
///
/// It is a measuring instrument, so the total per group matters more than the list: the number
/// that decides whether grouping is worth it is the share that fell into `Other`.
#[derive(Clone, Debug)]
pub struct SourcesReport {
    pub games: Vec<SourcesReportGame>,
    /// The number of games per group label, ordered by label.
    pub totals: Vec<(String, usize)>,
    pub unattributed_percent: u32,
}

pub open spec fn found_labels(found: Seq<(Seq<char>, GameGroup)>) -> Seq<Seq<char>> {
    found.map_values(|f: (Seq<char>, GameGroup)| group_label(f.1))
}

proof fn lemma_tally_counts_bounded(labels: Seq<Seq<char>>)
    ensures
        forall|k: int| 0 <= k < tally(labels).len() ==> (#[trigger] tally(labels)[k]).1 <= labels.len(),
    decreases labels.len(),
{
    if labels.len() > 0 {
        lemma_tally_counts_bounded(labels.drop_last());
        let t = tally(labels.drop_last());
        let l = labels.last();
        lemma_label_index(t, l, 0);
        match label_index(t, l, 0) {
            Some(w) => {
                assert forall|k: int| 0 <= k < tally(labels).len() implies (#[trigger] tally(labels)[k]).1 <= labels.len() by {
                    if k != w {
                        assert(tally(labels)[k] == t[k]);
                    }
                }
            },
            None => {
                lemma_label_position_bounds(t, l, 0);
                let p = label_position(t, l, 0);
                assert forall|k: int| 0 <= k < tally(labels).len() implies (#[trigger] tally(labels)[k]).1 <= labels.len() by {
                    if k < p {
                        assert(tally(labels)[k] == t[k]);
                    } else if k > p {
                        assert(tally(labels)[k] == t[k - 1]);
                    }
                }
            },
        }
    }
}

proof fn lemma_label_position_bounds(t: TallyView, l: Seq<char>, j: int)
    requires
        0 <= j <= t.len(),
    ensures
        j <= label_position(t, l, j) <= t.len(),
    decreases t.len() - j,
{
    if j < t.len() {
        lemma_label_position_bounds(t, l, j + 1);
    }
}

impl SourcesReport {
    pub fn new(found: Vec<(String, GameGroup)>) -> (r: SourcesReport)
        requires
            found@.len() < usize::MAX / 100,
        ensures
            r.games@.map_values(|g: SourcesReportGame| (g.game@, g.group@)) == found@.map_values(
                |f: (String, GameGroup)| (f.0@, group_label(f.1)),
            ),
            r.totals@.map_values(|t: (String, usize)| (t.0@, t.1 as nat)) == tally(
                found_labels(found@.map_values(|f: (String, GameGroup)| (f.0@, f.1))),
            ),
            r.unattributed_percent as nat == percent_of(
                count_label(found_labels(found@.map_values(|f: (String, GameGroup)| (f.0@, f.1))), "Other"@),
                found@.len(),
            ),
    {
        let ghost fv = found@.map_values(|f: (String, GameGroup)| (f.0@, f.1));
        let ghost labels = found_labels(fv);
        let other = owned("Other");
        let other_chars = chars_of("Other");
        let mut totals: Vec<(String, usize)> = Vec::new();
        let mut games: Vec<SourcesReportGame> = Vec::new();
        let mut unattributed: usize = 0;
        let mut i: usize = 0;
        assert(labels.take(0) =~= Seq::<Seq<char>>::empty());
        assert(totals@.map_values(|t: (String, usize)| (t.0@, t.1 as nat)) =~= Seq::<(Seq<char>, nat)>::empty());
        while i < found.len()
            invariant
                i <= found.len(),
                found@.len() < usize::MAX / 100,
                fv == found@.map_values(|f: (String, GameGroup)| (f.0@, f.1)),
                labels == found_labels(fv),
                other_chars@ == "Other"@,
                totals@.map_values(|t: (String, usize)| (t.0@, t.1 as nat)) == tally(labels.take(i as int)),
                games@.map_values(|g: SourcesReportGame| (g.game@, g.group@)) == found@.take(i as int).map_values(
                    |f: (String, GameGroup)| (f.0@, group_label(f.1)),
                ),
                unattributed as nat == count_label(labels.take(i as int), "Other"@),
                unattributed <= i,
            decreases found.len() - i,
        {
            let ghost tv = totals@.map_values(|t: (String, usize)| (t.0@, t.1 as nat));
            let ghost gv = games@.map_values(|g: SourcesReportGame| (g.game@, g.group@));
            assert(labels.take(i + 1).drop_last() == labels.take(i as int));
            assert(labels[i as int] == group_label(found@[i as int].1));
            let label = found[i].1.label();
            let label_chars = chars_of(label.as_str());
            proof {
                lemma_tally_counts_bounded(labels.take(i as int));
            }
            // The label's count.
            let mut k: usize = 0;
            let mut at: Option<usize> = None;
            while k < totals.len()
                invariant
                    k <= totals.len(),
                    tv == totals@.map_values(|t: (String, usize)| (t.0@, t.1 as nat)),
                    label_chars@ == label@,
                    at is None ==> label_index(tv, label@, 0) == label_index(tv, label@, k as int),
                    at matches Some(w) ==> label_index(tv, label@, 0) == Some(w as int),
                decreases totals.len() - k,
            {
                if at.is_none() {
                    assert(tv[k as int].0 == totals@[k as int].0@);
                    if same_text(totals[k].0.as_str(), label.as_str()) {
                        at = Some(k);
                    }
                }
                k = k + 1;
            }
            match at {
                Some(w) => {
                    proof {
                        lemma_label_index(tv, label@, 0);
                    }
                    assert(tv[w as int] == tally(labels.take(i as int))[w as int]);
                    assert(tv[w as int].1 <= i);
                    let c = totals[w].1;
                    let name = label.clone();
                    totals.set(w, (name, c + 1));
                    assert(totals@.map_values(|t: (String, usize)| (t.0@, t.1 as nat)) =~= tv.update(w as int, (label@, tv[w as int].1 + 1)));
                },
                None => {
                    let mut j: usize = 0;
                    let mut stop = false;
                    while j < totals.len() && !stop
                        invariant
                            j <= totals.len(),
                            tv == totals@.map_values(|t: (String, usize)| (t.0@, t.1 as nat)),
                            label_chars@ == label@,
                            !stop ==> label_position(tv, label@, 0) == label_position(tv, label@, j as int),
                            stop ==> j < totals.len() && label_position(tv, label@, 0) == j,
                        decreases totals.len() - j + if stop { 0int } else { 1int },
                    {
                        let here = chars_of(totals[j].0.as_str());
                        assert(tv[j as int].0 == here@);
                        if lex_less(&label_chars, &here) {
                            stop = true;
                        } else {
                            j = j + 1;
                        }
                    }
                    let name = label.clone();
                    totals.insert(j, (name, 1));
                    assert(totals@.map_values(|t: (String, usize)| (t.0@, t.1 as nat)) =~= tv.insert(j as int, (label@, 1nat)));
                },
            }
            let same = chars_eq_vec(&label_chars, &other_chars);
            if same {
                unattributed = unattributed + 1;
            }
            let game = found[i].0.clone();
            let ghost row = (game@, label@);
            assert(row == (found@[i as int].0@, group_label(found@[i as int].1)));
            games.push(SourcesReportGame { game, group: label });
            assert(games@.map_values(|g: SourcesReportGame| (g.game@, g.group@)) =~= gv.push(row));
            i = i + 1;
            assert(found@.take(i as int) =~= found@.take(i - 1).push(found@[i - 1]));
            assert(games@.map_values(|g: SourcesReportGame| (g.game@, g.group@)) =~= found@.take(i as int).map_values(
                |f: (String, GameGroup)| (f.0@, group_label(f.1)),
            ));
        }
        assert(labels.take(i as int) =~= labels);
        assert(found@.take(i as int) =~= found@);
        let percent: usize = if found.len() == 0 {
            0
        } else {
            (unattributed * 100) / found.len()
        };
        proof {
            if found.len() > 0 {
                assert(unattributed * 100 <= found.len() * 100) by (nonlinear_arith)
                    requires
                        unattributed <= found.len(),
                ;
                assert((unattributed * 100) / (found.len() as int) <= 100) by (nonlinear_arith)
                    requires
                        unattributed <= found.len(),
                        found.len() > 0,
                ;
            }
        }
        SourcesReport { games, totals, unattributed_percent: percent as u32 }
    }
}

fn chars_eq_vec(a: &Vec<char>, b: &Vec<char>) -> (r: bool)
    ensures
        r == (a@ == b@),
{
    if a.len() != b.len() {
        return false;
    }
    let mut i: usize = 0;
    while i < a.len()
        invariant
            a.len() == b.len(),
            i <= a.len(),
            forall|k: int| 0 <= k < i ==> a@[k] == b@[k],
        decreases a.len() - i,
    {
        if a[i] != b[i] {
            return false;
        }
        i = i + 1;
    }
    assert(a@ == b@);
    true
}

/// The text left-aligned in a field of `width` characters, as `{:<width}` writes it.
pub open spec fn padded(s: Seq<char>, width: nat) -> Seq<char> {
    if s.len() >= width {
        s
    } else {
        s + Seq::new((width - s.len()) as nat, |i: int| ' ')
    }
}

pub open spec fn game_lines(games: Seq<(Seq<char>, Seq<char>)>) -> Seq<char>
    decreases games.len(),
{
    if games.len() == 0 {
        seq![]
    } else {
        game_lines(games.drop_last()) + padded(games.last().1, 24) + seq![' ', ' '] + games.last().0 + seq!['\n']
    }
}

pub open spec fn total_lines(totals: TallyView) -> Seq<char>
    decreases totals.len(),
{
    if totals.len() == 0 {
        seq![]
    } else {
        total_lines(totals.drop_last()) + seq![' ', ' '] + padded(totals.last().0, 24) + seq![' ', ' ']
            + decimal(totals.last().1) + seq!['\n']
    }
}

/// The report as text: one line per game, the totals per group, and the share with no source.
pub open spec fn report_text(games: Seq<(Seq<char>, Seq<char>)>, totals: TallyView, percent: nat) -> Seq<char> {
    game_lines(games) + "\nTotals:\n"@ + total_lines(totals) + seq!['\n'] + decimal(games.len()) + " game(s), "@
        + decimal(percent) + "% with no source attributed.\n"@
}

fn push_text(out: &mut Vec<char>, s: &str)
    ensures
        final(out)@ == old(out)@ + s@,
{
    let mut more = chars_of(s);
    out.append(&mut more);
}

fn push_padded(out: &mut Vec<char>, s: &str, width: usize)
    ensures
        final(out)@ == old(out)@ + padded(s@, width as nat),
{
    let ghost before = out@;
    let chars = chars_of(s);
    let n = chars.len();
    push_text(out, s);
    if n < width {
        let mut k: usize = n;
        while k < width
            invariant
                n <= k <= width,
                n == s@.len(),
                out@ == before + s@ + Seq::new((k - n) as nat, |i: int| ' '),
            decreases width - k,
        {
            out.push(' ');
            k = k + 1;
            assert(out@ =~= before + s@ + Seq::new((k - n) as nat, |i: int| ' '));
        }
    } else {
        assert(out@ =~= before + padded(s@, width as nat));
    }
}

impl SourcesReport {
    pub fn render(&self) -> (r: String)
        ensures
            r@ == report_text(
                self.games@.map_values(|g: SourcesReportGame| (g.game@, g.group@)),
                self.totals@.map_values(|t: (String, usize)| (t.0@, t.1 as nat)),
                self.unattributed_percent as nat,
            ),
    {
        let ghost gv = self.games@.map_values(|g: SourcesReportGame| (g.game@, g.group@));
        let ghost tv = self.totals@.map_values(|t: (String, usize)| (t.0@, t.1 as nat));
        let mut out: Vec<char> = Vec::new();
        let mut i: usize = 0;
        assert(gv.take(0) =~= Seq::<(Seq<char>, Seq<char>)>::empty());
        while i < self.games.len()
            invariant
                i <= self.games.len(),
                gv == self.games@.map_values(|g: SourcesReportGame| (g.game@, g.group@)),
                out@ == game_lines(gv.take(i as int)),
            decreases self.games.len() - i,
        {
            assert(gv.take(i + 1).drop_last() == gv.take(i as int));
            assert(gv.take(i + 1).last() == gv[i as int]);
            let game = &self.games[i];
            push_padded(&mut out, game.group.as_str(), 24);
            push_text(&mut out, "  ");
            push_text(&mut out, game.game.as_str());
            out.push('\n');
            proof {
                reveal_strlit("  ");
            }
            i = i + 1;
            assert(out@ =~= game_lines(gv.take(i as int)));
        }
        assert(gv.take(i as int) == gv);
        push_text(&mut out, "\nTotals:\n");
        let ghost head = out@;
        let mut j: usize = 0;
        assert(tv.take(0) =~= Seq::<(Seq<char>, nat)>::empty());
        while j < self.totals.len()
            invariant
                j <= self.totals.len(),
                tv == self.totals@.map_values(|t: (String, usize)| (t.0@, t.1 as nat)),
                out@ == head + total_lines(tv.take(j as int)),
            decreases self.totals.len() - j,
        {
            assert(tv.take(j + 1).drop_last() == tv.take(j as int));
            assert(tv.take(j + 1).last() == tv[j as int]);
            let (group, count) = &self.totals[j];
            push_text(&mut out, "  ");
            push_padded(&mut out, group.as_str(), 24);
            push_text(&mut out, "  ");
            let mut digits = decimal_chars(*count);
            out.append(&mut digits);
            out.push('\n');
            proof {
                reveal_strlit("  ");
            }
            j = j + 1;
            assert(out@ =~= head + total_lines(tv.take(j as int)));
        }
        assert(tv.take(j as int) == tv);
        out.push('\n');
        let mut n = decimal_chars(self.games.len());
        out.append(&mut n);
        push_text(&mut out, " game(s), ");
        let mut p = decimal_chars(self.unattributed_percent as usize);
        out.append(&mut p);
        push_text(&mut out, "% with no source attributed.\n");
        assert(out@ =~= report_text(gv, tv, self.unattributed_percent as nat));
        string_from(&out)
    }
}


proof fn lemma_label_index(t: TallyView, l: Seq<char>, j: int)
    requires
        0 <= j,
    ensures
        label_index(t, l, j) matches Some(k) ==> j <= k < t.len() && t[k].0 == l,
        label_index(t, l, j) is None ==> forall|i: int| j <= i < t.len() ==> (#[trigger] t[i]).0 != l,
    decreases t.len() - j,
{
    if j < t.len() {
        lemma_label_index(t, l, j + 1);
    }
}

/// The tally of some labels counts each label that occurs once, with how many times it occurs.
pub open spec fn counts_each_label(t: TallyView, labels: Seq<Seq<char>>) -> bool {
    &&& forall|i: int, j: int| 0 <= i < j < t.len() ==> (#[trigger] t[i]).0 != (#[trigger] t[j]).0
    &&& forall|i: int| 0 <= i < t.len() ==> (#[trigger] t[i]).1 == count_label(labels, t[i].0) && t[i].1 > 0
    &&& forall|l: Seq<char>| #[trigger] count_label(labels, l) > 0 ==> exists|i: int| 0 <= i < t.len() && (#[trigger] t[i]).0 == l
}

/// Each total of the report is the number of games of its label: every label with a game has one
/// total, and no label has a total of nothing.
pub proof fn each_total_counts_its_label(labels: Seq<Seq<char>>)
    ensures
        counts_each_label(tally(labels), labels),
    decreases labels.len(),
{
    if labels.len() > 0 {
        let before = labels.drop_last();
        let x = labels.last();
        each_total_counts_its_label(before);
        let t = tally(before);
        let u = tally(labels);
        assert(labels =~= before.push(x));
        assert forall|l: Seq<char>| #[trigger] count_label(labels, l) == count_label(before, l) + if x == l { 1nat } else { 0nat } by {
            assert(labels.drop_last() == before);
        }
        lemma_label_index(t, x, 0);
        match label_index(t, x, 0) {
            Some(k) => {
                assert(u == t.update(k, (x, t[k].1 + 1)));
                assert forall|i: int, j: int| 0 <= i < j < u.len() implies (#[trigger] u[i]).0 != (#[trigger] u[j]).0 by {
                    assert(u[i].0 == t[i].0 && u[j].0 == t[j].0);
                }
                assert forall|i: int| 0 <= i < u.len() implies (#[trigger] u[i]).1 == count_label(labels, u[i].0) && u[i].1 > 0 by {
                    assert(count_label(labels, t[i].0) == count_label(before, t[i].0) + if x == t[i].0 { 1nat } else { 0nat });
                }
                assert forall|l: Seq<char>| #[trigger] count_label(labels, l) > 0 implies exists|i: int| 0 <= i < u.len() && (#[trigger] u[i]).0 == l by {
                    if l == x {
                        assert(u[k].0 == l);
                    } else {
                        assert(count_label(before, l) > 0);
                        let i = choose|i: int| 0 <= i < t.len() && (#[trigger] t[i]).0 == l;
                        assert(u[i].0 == l);
                    }
                }
            },
            None => {
                lemma_label_position_bounds(t, x, 0);
                let p = label_position(t, x, 0);
                assert(u == t.insert(p, (x, 1nat)));
                assert(count_label(before, x) == 0) by {
                    if count_label(before, x) > 0 {
                        let i = choose|i: int| 0 <= i < t.len() && (#[trigger] t[i]).0 == x;
                    }
                }
                assert forall|i: int, j: int| 0 <= i < j < u.len() implies (#[trigger] u[i]).0 != (#[trigger] u[j]).0 by {
                    if j < p {
                        assert(u[i] == t[i] && u[j] == t[j]);
                    } else if j == p {
                        assert(u[i] == t[i]);
                    } else if i < p {
                        assert(u[i] == t[i] && u[j] == t[j - 1]);
                    } else if i == p {
                        assert(u[j] == t[j - 1]);
                    } else {
                        assert(u[i] == t[i - 1] && u[j] == t[j - 1]);
                    }
                }
                assert forall|i: int| 0 <= i < u.len() implies (#[trigger] u[i]).1 == count_label(labels, u[i].0) && u[i].1 > 0 by {
                    if i < p {
                        assert(u[i] == t[i]);
                        assert(count_label(labels, t[i].0) == count_label(before, t[i].0) + if x == t[i].0 { 1nat } else { 0nat });
                    } else if i > p {
                        assert(u[i] == t[i - 1]);
                        assert(count_label(labels, t[i - 1].0) == count_label(before, t[i - 1].0) + if x == t[i - 1].0 { 1nat } else { 0nat });
                    } else {
                        assert(count_label(labels, x) == count_label(before, x) + 1);
                    }
                }
                assert forall|l: Seq<char>| #[trigger] count_label(labels, l) > 0 implies exists|i: int| 0 <= i < u.len() && (#[trigger] u[i]).0 == l by {
                    if l == x {
                        assert(u[p].0 == l);
                    } else {
                        assert(count_label(before, l) > 0);
                        let i = choose|i: int| 0 <= i < t.len() && (#[trigger] t[i]).0 == l;
                        if i < p {
                            assert(u[i] == t[i]);
                        } else {
                            assert(u[i + 1] == t[i]);
                        }
                    }
                }
            },
        }
    }
}

} // verus!
