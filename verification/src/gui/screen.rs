//! What the screens decide: how the emulators screen reads each emulator, what the restore
//! screen opens on, and which custom games are shown.
use vstd::prelude::*;

use crate::gui::vault::{games, inventory, Entry, Game, GameView};
use crate::path::StrictPath;
use crate::scan::emulator::text::chars_of;
use crate::scan::emulator::{all_apps, app_name, App};

verus! {

/// What a look at the disk found for one emulator.
#[derive(Clone, Debug)]
pub struct EmulatorFinding {
    /// The emulator's proper name.
    pub name: String,
    /// The data folder in use, when there is exactly one.
    pub data_root: Option<StrictPath>,
    /// How many games its saves make.
    pub games: usize,
    /// For each candidate folder, whether it carries the emulator's signature.
    pub candidates: Vec<bool>,
}

pub struct FindingView {
    pub name: Seq<char>,
    pub data_root: Option<Seq<char>>,
    pub games: usize,
    pub candidates: Seq<bool>,
}

impl View for EmulatorFinding {
    type V = FindingView;

    open spec fn view(&self) -> FindingView {
        FindingView {
            name: self.name@,
            data_root: match self.data_root {
                Some(p) => Some(p@),
                None => None,
            },
            games: self.games,
            candidates: self.candidates@,
        }
    }
}

/// The emulators screen keeps the last look at the disk instead of taking one per frame, because
/// it lists folders.
#[derive(Clone, Debug, Default)]
pub struct Emulators {
    pub diagnosis: Option<Vec<EmulatorFinding>>,
}

/// An emulator's state on this machine, in one word for the card's chip.
#[derive(Clone, Copy, Debug, PartialEq, Eq, Structural)]
pub enum EmulatorState {
    /// Data folder found, with saves inside.
    Ready,
    /// Folder found, and empty. It is no success: the backup would come out with nothing.
    NoSaves,
    /// More than one data folder matched, so the restore's destination is undetermined.
    Ambiguous,
    /// No data folder of this emulator on this machine.
    Missing,
    /// The disk has not been looked at yet.
    Unchecked,
}

impl EmulatorState {
    /// Only `Ready` counts as good, and it is what the header's count uses. `NoSaves` stays out on
    /// purpose: a recognised, empty folder is exactly the case that looked like success and made
    /// an empty backup with no explanation.
    pub fn is_good(self) -> (r: bool)
        ensures
            r == (self == EmulatorState::Ready),
    {
        self == EmulatorState::Ready
    }
}

/// How many of the first `n` known emulators are ready.
pub open spec fn ready_among(d: Option<Seq<FindingView>>, n: int) -> int
    decreases n,
{
    if n <= 0 {
        0
    } else {
        ready_among(d, n - 1) + if state_from(finding_of(d, all_apps()[n - 1])) == EmulatorState::Ready {
            1int
        } else {
            0int
        }
    }
}

/// The first finding, from the `k`-th on, about the emulator with this name.
pub open spec fn finding_for(findings: Seq<FindingView>, name: Seq<char>, k: int) -> Option<FindingView>
    decreases findings.len() - k,
{
    if k >= findings.len() || k < 0 {
        None
    } else if findings[k].name == name {
        Some(findings[k])
    } else {
        finding_for(findings, name, k + 1)
    }
}

/// How many of the first `n` candidates carry the signature.
pub open spec fn matching(candidates: Seq<bool>, n: int) -> nat
    decreases n,
{
    if n <= 0 {
        0
    } else {
        matching(candidates, n - 1) + if candidates[n - 1] { 1nat } else { 0nat }
    }
}

pub open spec fn state_from(found: Option<FindingView>) -> EmulatorState {
    match found {
        None => EmulatorState::Unchecked,
        Some(f) => match f.data_root {
            Some(_) => if f.games == 0 { EmulatorState::NoSaves } else { EmulatorState::Ready },
            None => if matching(f.candidates, f.candidates.len() as int) > 1 {
                EmulatorState::Ambiguous
            } else {
                EmulatorState::Missing
            },
        },
    }
}

pub open spec fn findings_view(d: Option<Vec<EmulatorFinding>>) -> Option<Seq<FindingView>> {
    match d {
        Some(v) => Some(v@.map_values(|f: EmulatorFinding| f@)),
        None => None,
    }
}

pub open spec fn finding_of(d: Option<Seq<FindingView>>, app: App) -> Option<FindingView> {
    match d {
        Some(f) => finding_for(f, app_name(app), 0),
        None => None,
    }
}

/// What the card says beyond its chip: the folder in use and its games, or how many folders
/// compete; nothing when the chip already says it all.
#[derive(Clone, Debug, PartialEq, Eq)]
pub enum Detail {
    UsingFolderWithoutSaves(StrictPath),
    UsingFolder(StrictPath, usize),
    Ambiguous(usize),
}

pub enum DetailView {
    UsingFolderWithoutSaves(Seq<char>),
    UsingFolder(Seq<char>, usize),
    Ambiguous(nat),
}

impl View for Detail {
    type V = DetailView;

    open spec fn view(&self) -> DetailView {
        match self {
            Detail::UsingFolderWithoutSaves(p) => DetailView::UsingFolderWithoutSaves(p@),
            Detail::UsingFolder(p, n) => DetailView::UsingFolder(p@, *n),
            Detail::Ambiguous(n) => DetailView::Ambiguous(*n as nat),
        }
    }
}

pub open spec fn detail_from(found: Option<FindingView>) -> Option<DetailView> {
    match found {
        None => None,
        Some(f) => match f.data_root {
            Some(root) => if f.games == 0 {
                Some(DetailView::UsingFolderWithoutSaves(root))
            } else {
                Some(DetailView::UsingFolder(root, f.games))
            },
            None => {
                let n = matching(f.candidates, f.candidates.len() as int);
                if n > 1 {
                    Some(DetailView::Ambiguous(n))
                } else {
                    None
                }
            },
        },
    }
}

fn names_match(a: &String, b: &str) -> (r: bool)
    ensures
        r == (a@ == b@),
{
    let x = chars_of(a.as_str());
    let y = chars_of(b);
    if x.len() != y.len() {
        return false;
    }
    let mut i: usize = 0;
    while i < x.len()
        invariant
            x.len() == y.len(),
            x@ == a@,
            y@ == b@,
            i <= x.len(),
            forall|k: int| 0 <= k < i ==> x@[k] == y@[k],
        decreases x.len() - i,
    {
        if x[i] != y[i] {
            assert(x@[i as int] != y@[i as int]);
            return false;
        }
        i = i + 1;
    }
    assert(x@ == y@);
    true
}

fn count_matching(candidates: &Vec<bool>) -> (r: usize)
    ensures
        r as nat == matching(candidates@, candidates@.len() as int),
{
    let mut n: usize = 0;
    let mut i: usize = 0;
    while i < candidates.len()
        invariant
            i <= candidates.len(),
            n as nat == matching(candidates@, i as int),
            n <= i,
        decreases candidates.len() - i,
    {
        if candidates[i] {
            n = n + 1;
        }
        i = i + 1;
    }
    n
}

impl Emulators {
    fn find(&self, app: App) -> (r: Option<&EmulatorFinding>)
        ensures
            match r {
                Some(f) => finding_of(findings_view(self.diagnosis), app) == Some(f@),
                None => finding_of(findings_view(self.diagnosis), app) is None,
            },
    {
        match &self.diagnosis {
            None => None,
            Some(findings) => {
                let ghost fv = findings@.map_values(|f: EmulatorFinding| f@);
                let name = app.name();
                let mut k: usize = 0;
                while k < findings.len()
                    invariant
                        k <= findings.len(),
                        fv == findings@.map_values(|f: EmulatorFinding| f@),
                        findings_view(self.diagnosis) == Some(fv),
                        name@ == app_name(app),
                        finding_for(fv, app_name(app), 0) == finding_for(fv, app_name(app), k as int),
                    decreases findings.len() - k,
                {
                    assert(fv[k as int] == findings@[k as int]@);
                    if names_match(&findings[k].name, name) {
                        return Some(&findings[k]);
                    }
                    k = k + 1;
                }
                None
            },
        }
    }

    /// An emulator's state, in one word.
    ///
    /// It exists so that the whole sentence stops being the card's only information: eight
    /// one-line sentences in the same grey gave the eye nowhere to land.
    pub fn state_of(&self, app: App) -> (r: EmulatorState)
        ensures
            r == state_from(finding_of(findings_view(self.diagnosis), app)),
    {
        match self.find(app) {
            None => EmulatorState::Unchecked,
            Some(found) => match &found.data_root {
                Some(_) => if found.games == 0 {
                    EmulatorState::NoSaves
                } else {
                    EmulatorState::Ready
                },
                None => if count_matching(&found.candidates) > 1 {
                    EmulatorState::Ambiguous
                } else {
                    EmulatorState::Missing
                },
            },
        }
    }

    /// How many of the known emulators are ready, for the header's count.
    pub fn ready_count(&self) -> (r: usize)
        ensures
            r == ready_among(findings_view(self.diagnosis), 8),
    {
        let mut count: usize = 0;
        let mut i: usize = 0;
        while i < 8
            invariant
                i <= 8,
                count == ready_among(findings_view(self.diagnosis), i as int),
                count <= i,
            decreases 8 - i,
        {
            let app = App::ALL[i];
            assert(app == all_apps()[i as int]);
            if self.state_of(app).is_good() {
                count = count + 1;
            }
            i = i + 1;
        }
        count
    }

    /// The sentence that explains the state, when it says more than the chip's word already did.
    pub fn detail_of(&self, app: App) -> (r: Option<Detail>)
        ensures
            match r {
                Some(d) => detail_from(finding_of(findings_view(self.diagnosis), app)) == Some(d@),
                None => detail_from(finding_of(findings_view(self.diagnosis), app)) is None,
            },
    {
        let found = match self.find(app) {
            None => {
                return None;
            },
            Some(f) => f,
        };
        match &found.data_root {
            Some(root) => if found.games == 0 {
                Some(Detail::UsingFolderWithoutSaves(root.clone()))
            } else {
                Some(Detail::UsingFolder(root.clone(), found.games))
            },
            None => {
                let n = count_matching(&found.candidates);
                if n > 1 {
                    Some(Detail::Ambiguous(n))
                } else {
                    None
                }
            },
        }
    }
}

/// The restore screen's state.
#[derive(Clone, Debug, Default)]
pub struct Restore {
    /// The drawer of the restore source, folded by default.
    pub target_editor_open: bool,
    /// What the vault holds, one row per game, the longest unsaved game first.
    ///
    /// Read from the vault itself when the screen is made, and not from the last scan's cache:
    /// it is what lets the screen open answering "what do I have, and from when" instead of a
    /// list of names with no data waiting for someone to press Scan.
    pub inventory: Vec<Game>,
}

impl Restore {
    /// The screen, folded, with the inventory of the backups the vault holds: one row per game,
    /// the game whose newest backup is oldest first.
    pub fn new(entries: &Vec<Entry>) -> (r: Restore)
        ensures
            !r.target_editor_open,
            r.inventory@.map_values(|g: Game| g@) == inventory(entries@.map_values(|e: Entry| e@)),
    {
        Restore { target_editor_open: false, inventory: games(entries) }
    }
}


/// The positions, below `n`, of the games the filter lets through, in order.
pub open spec fn qualifying(verdicts: Seq<bool>, n: int) -> Seq<int>
    decreases n,
{
    if n <= 0 {
        Seq::empty()
    } else if verdicts[n - 1] {
        qualifying(verdicts, n - 1).push(n - 1)
    } else {
        qualifying(verdicts, n - 1)
    }
}

/// The custom-games screen.
pub struct CustomGames {
    /// Whether the filter bar is showing.
    pub filter_enabled: bool,
}

impl CustomGames {
    /// The positions, in the configuration's list of custom games, of the games the screen
    /// shows: those the filter lets through, in the list's order.
    ///
    /// `verdicts` holds, for each custom game in order, whether the filter lets it through.
    pub fn visible_games(&self, verdicts: &Vec<bool>) -> (r: Vec<usize>)
        ensures
            r@.map_values(|i: usize| i as int) == qualifying(verdicts@, verdicts@.len() as int),
    {
        let mut shown: Vec<usize> = Vec::new();
        let mut i: usize = 0;
        while i < verdicts.len()
            invariant
                i <= verdicts.len(),
                shown@.map_values(|k: usize| k as int) == qualifying(verdicts@, i as int),
            decreases verdicts.len() - i,
        {
            if verdicts[i] {
                shown.push(i);
            }
            i = i + 1;
            assert(shown@.map_values(|k: usize| k as int) =~= qualifying(verdicts@, i as int));
        }
        shown
    }
}

/// A shown position is one the filter let through, each comes once and in the list's order, and
/// none the filter let through is missing.
pub proof fn visible_games_are_exactly_the_qualifying_ones(verdicts: Seq<bool>, n: int)
    requires
        0 <= n <= verdicts.len(),
    ensures
        forall|k: int| 0 <= k < qualifying(verdicts, n).len() ==> {
            let i = #[trigger] qualifying(verdicts, n)[k];
            0 <= i < n && verdicts[i]
        },
        forall|a: int, b: int|
            0 <= a < b < qualifying(verdicts, n).len() ==> #[trigger] qualifying(verdicts, n)[a]
                < #[trigger] qualifying(verdicts, n)[b],
        forall|i: int| 0 <= i < n && verdicts[i] ==> #[trigger] qualifying(verdicts, n).contains(i),
    decreases n,
{
    if n > 0 {
        visible_games_are_exactly_the_qualifying_ones(verdicts, n - 1);
        let prev = qualifying(verdicts, n - 1);
        if verdicts[n - 1] {
            assert forall|i: int| 0 <= i < n && verdicts[i] implies #[trigger] qualifying(verdicts, n).contains(i) by {
                if i == n - 1 {
                    assert(qualifying(verdicts, n)[prev.len() as int] == i);
                } else {
                    assert(prev.contains(i));
                    let j = choose|j: int| 0 <= j < prev.len() && prev[j] == i;
                    assert(qualifying(verdicts, n)[j] == i);
                }
            }
        }
    }
}

} // verus!
