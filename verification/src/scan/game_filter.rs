//! The filters of the game list.
use std::cmp::Ordering;
use vstd::prelude::*;
use vstd::std_specs::cmp::PartialOrdSpec;

use crate::manifest::{Game, Source, SourceView};
use crate::scan::emulator::{all_apps, app_rank, App};
use crate::scan::info::{Duplication, ScanChange, ScanInfo};
use crate::scan::layout::first_emulator;

verus! {

#[derive(Clone, Debug, PartialEq)]
pub enum Event {
    Toggled,
    ToggledFilter { filter: FilterKind, enabled: bool },
    EditedGameName(String),
    Reset,
    EditedFilterUniqueness(Uniqueness),
    EditedFilterCompleteness(Completeness),
    EditedFilterEnablement(Enablement),
    EditedFilterChange(Change),
    EditedFilterManifest(Manifest),
    EditedFilterOrigin(Origin),
}

#[derive(Clone, Copy, Debug, PartialEq, Eq, Structural)]
pub enum FilterKind {
    Uniqueness,
    Completeness,
    Enablement,
    Change,
    Manifest,
    Origin,
}

/// Where the save comes from: the PC or an emulator, and which.
///
/// The list mixes both, and whoever wants to check the console does not want to scroll through
/// hundreds of PC games to find half a dozen from an emulator.
///
/// Screen order: the emulators first, the PC last. The PC is the big bucket: in a real backup it
/// is 130 PC games against half a dozen from emulators, and putting the bucket first would mean
/// scrolling the whole list to reach the handful one came to check.
#[derive(Clone, Copy, Debug, Default, PartialEq, Eq, Structural, Hash, Ord)]
pub enum Origin {
    Emulator(App),
    #[default]
    Pc,
}

/// Where an origin stands on screen: each emulator in its own order, and the PC after all of
/// them.
pub open spec fn origin_rank(origin: Origin) -> int {
    match origin {
        Origin::Emulator(app) => app_rank(app),
        Origin::Pc => 8,
    }
}

/// Two places compared.
pub open spec fn by_rank(a: int, b: int) -> Option<Ordering> {
    if a < b {
        Some(Ordering::Less)
    } else if a == b {
        Some(Ordering::Equal)
    } else {
        Some(Ordering::Greater)
    }
}

fn rank_of(origin: &Origin) -> (r: u8)
    ensures
        r == origin_rank(*origin),
{
    match origin {
        Origin::Emulator(app) => app.rank(),
        Origin::Pc => 8,
    }
}

/// Screen order: the emulators first, each in its own order, the PC last.
impl PartialOrd for Origin {
    fn partial_cmp(&self, other: &Origin) -> (r: Option<Ordering>) {
        let a = rank_of(self);
        let b = rank_of(other);
        if a < b {
            Some(Ordering::Less)
        } else if a == b {
            Some(Ordering::Equal)
        } else {
            Some(Ordering::Greater)
        }
    }
}

impl vstd::std_specs::cmp::PartialOrdSpecImpl for Origin {
    open spec fn obeys_partial_cmp_spec() -> bool {
        true
    }

    open spec fn partial_cmp_spec(&self, other: &Origin) -> Option<Ordering> {
        by_rank(origin_rank(*self), origin_rank(*other))
    }
}

/// The PC is the big bucket and sorts after every emulator; the emulators sort among themselves
/// in the order they are offered in, and only an origin is level with itself.
pub proof fn the_pc_sorts_after_every_emulator(app: App, a: Origin, b: Origin)
    ensures
        Origin::Emulator(app).partial_cmp_spec(&Origin::Pc) == Some(Ordering::Less),
        Origin::Pc.partial_cmp_spec(&Origin::Emulator(app)) == Some(Ordering::Greater),
        forall|i: int, j: int|
            0 <= i < j < all_apps().len() ==> Origin::Emulator(#[trigger] all_apps()[i]).partial_cmp_spec(
                &Origin::Emulator(#[trigger] all_apps()[j]),
            ) == Some(Ordering::Less),
        a.partial_cmp_spec(&b) == Some(Ordering::Equal) <==> a == b,
{
    assert(forall|i: int| 0 <= i < all_apps().len() ==> app_rank(#[trigger] all_apps()[i]) == i);
}

/// The emulator a scan recorded for the game, if any.
pub open spec fn scan_emulator(scan: ScanInfo) -> Option<App> {
    first_emulator(scan.semantics@, scan.semantics@.len() as int)
}

/// Where a game comes from, by what the scan recorded.
pub open spec fn origin_of(scan: ScanInfo) -> Origin {
    match scan_emulator(scan) {
        Some(app) => Origin::Emulator(app),
        None => Origin::Pc,
    }
}

pub open spec fn origin_qualifies(origin: Origin, scan: ScanInfo) -> bool {
    match origin {
        Origin::Pc => scan_emulator(scan) is None,
        Origin::Emulator(app) => scan_emulator(scan) == Some(app),
    }
}

impl Origin {
    /// Where this game comes from, by what the scan recorded.
    ///
    /// The same rule as [`Self::qualifies`], from the other side: there the question is "is this
    /// game of this group?", here "of which group is this game?".
    pub fn of(scan: &ScanInfo) -> (r: Origin)
        ensures
            r == origin_of(*scan),
    {
        match scan.semantics.emulator() {
            Some(app) => Origin::Emulator(app),
            None => Origin::Pc,
        }
    }

    /// The PC first, then each known emulator.
    pub fn all() -> (r: Vec<Origin>)
        ensures
            r@ == seq![Origin::Pc] + all_apps().map_values(|app: App| Origin::Emulator(app)),
    {
        let mut out: Vec<Origin> = vec![Origin::Pc];
        let mut i: usize = 0;
        while i < 8
            invariant
                i <= 8,
                out@ == seq![Origin::Pc] + all_apps().take(i as int).map_values(|app: App| Origin::Emulator(app)),
            decreases 8 - i,
        {
            let app = App::ALL[i];
            assert(app == all_apps()[i as int]);
            out.push(Origin::Emulator(app));
            i = i + 1;
            assert(all_apps().take(i as int) =~= all_apps().take(i - 1).push(app));
            assert(out@ =~= seq![Origin::Pc] + all_apps().take(i as int).map_values(|app: App| Origin::Emulator(app)));
        }
        assert(all_apps().take(8) =~= all_apps());
        out
    }

    /// **What the scan recorded decides, never the game's name.** The key is
    /// `"<Emulator> <identity>"`, so filtering by name looks obvious and puts a PC game called
    /// `Eden Ring` inside Eden.
    pub fn qualifies(&self, scan: &ScanInfo) -> (r: bool)
        ensures
            r == origin_qualifies(*self, *scan),
    {
        match self {
            Origin::Pc => scan.semantics.emulator().is_none(),
            Origin::Emulator(app) => match scan.semantics.emulator() {
                Some(found) => found == *app,
                None => false,
            },
        }
    }
}

/// A game qualifies for exactly one origin: the one it comes from.
pub proof fn a_game_has_exactly_one_origin(origin: Origin, scan: ScanInfo)
    ensures
        origin_qualifies(origin, scan) <==> origin == origin_of(scan),
{
}

#[derive(Clone, Copy, Debug, Default, PartialEq, Eq, Structural)]
pub enum Uniqueness {
    Unique,
    #[default]
    Duplicate,
}

impl Uniqueness {
    pub const ALL: [Uniqueness; 2] = [Uniqueness::Unique, Uniqueness::Duplicate];

    pub fn qualifies(&self, duplicated: Duplication) -> (r: bool)
        ensures
            r == match *self {
                Uniqueness::Unique => duplicated == Duplication::Unique,
                Uniqueness::Duplicate => duplicated != Duplication::Unique,
            },
    {
        match self {
            Uniqueness::Unique => duplicated.unique(),
            Uniqueness::Duplicate => !duplicated.unique(),
        }
    }
}

#[derive(Clone, Copy, Debug, Default, PartialEq, Eq, Structural)]
pub enum Completeness {
    Complete,
    #[default]
    Partial,
}

impl Completeness {
    pub const ALL: [Completeness; 2] = [Completeness::Complete, Completeness::Partial];

    pub fn qualifies(&self, scan: &ScanInfo) -> (r: bool)
        ensures
            r == match *self {
                Completeness::Complete => !scan.ignored,
                Completeness::Partial => scan.ignored,
            },
    {
        match self {
            Completeness::Complete => !scan.any_ignored(),
            Completeness::Partial => scan.any_ignored(),
        }
    }
}

#[derive(Clone, Copy, Debug, Default, PartialEq, Eq, Structural)]
pub enum Enablement {
    Enabled,
    #[default]
    Disabled,
}

impl Enablement {
    pub const ALL: [Enablement; 2] = [Enablement::Enabled, Enablement::Disabled];

    pub fn qualifies(&self, enabled: bool) -> (r: bool)
        ensures
            r == match *self {
                Enablement::Enabled => enabled,
                Enablement::Disabled => !enabled,
            },
    {
        match self {
            Enablement::Enabled => enabled,
            Enablement::Disabled => !enabled,
        }
    }
}

#[derive(Clone, Copy, Debug, Default, PartialEq, Eq, Structural)]
pub enum Change {
    New,
    Updated,
    Unchanged,
    #[default]
    Unscanned,
}

impl Change {
    pub const ALL: [Change; 4] = [Change::New, Change::Updated, Change::Unchanged, Change::Unscanned];

    pub fn qualifies(&self, scan: &ScanInfo) -> (r: bool)
        ensures
            r == match *self {
                Change::New => scan.change == ScanChange::New,
                Change::Updated => scan.change == ScanChange::Different,
                Change::Unchanged => scan.change == ScanChange::Same,
                Change::Unscanned => scan.change == ScanChange::Unknown,
            },
    {
        match self {
            Change::New => scan.overall_change() == ScanChange::New,
            Change::Updated => scan.overall_change() == ScanChange::Different,
            Change::Unchanged => scan.overall_change() == ScanChange::Same,
            Change::Unscanned => scan.overall_change() == ScanChange::Unknown,
        }
    }
}

/// The filter by the manifest a game comes from.
#[derive(Clone, Debug, Default, PartialEq, Eq)]
pub struct Manifest {
    source: Source,
}

impl View for Manifest {
    type V = SourceView;

    closed spec fn view(&self) -> SourceView {
        self.source@
    }
}

impl Manifest {
    pub fn new(source: Source) -> (r: Manifest)
        ensures
            r@ == source@,
    {
        Manifest { source }
    }

    /// The game is listed by this manifest; a game the user made by hand counts as listed by the
    /// custom games.
    pub fn qualifies(&self, game: Option<&Game>, customized: bool) -> (r: bool)
        ensures
            r == ((game matches Some(g) && g@.contains(self@)) || (self@ == SourceView::Custom && customized)),
    {
        let listed = match game {
            Some(g) => g.has_source(&self.source),
            None => false,
        };
        listed || (self.source.same_as(&Source::Custom) && customized)
    }
}

} // verus!
