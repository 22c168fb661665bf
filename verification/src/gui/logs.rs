//! The system log: what each backup RUN did.
//!
//! The walk over the backup folder lives in [`crate::gui::vault`], because the same read answers
//! two different questions: this screen groups it by execution, and the restore screen groups it
//! by game.
use vstd::prelude::*;

use crate::gui::vault::{backups_well_formed, entries, sizes_fit, vault_entries, Entry, EntryView, GameBackups};
use crate::scan::emulator::lex_less;
use crate::scan::emulator::{lemma_lex_asymmetric, lemma_lex_transitive, lex_lt};

verus! {

/// How long a silence has to be before it counts as the end of an execution, in nanoseconds.
///
/// Only ever consulted for backups written before runs had a shared timestamp.
pub const RUN_GAP: i64 = 90_000_000_000;

/// One execution: everything a single press of "Back up" wrote.
#[derive(Clone, Debug)]
pub struct Run {
    /// Also the key that identifies the run in the interface: it is stable across a reload of the
    /// log in a way that a position in a list is not. Nanoseconds since the Unix epoch.
    pub when: i64,
    pub entries: Vec<Entry>,
}

pub struct RunView {
    pub when: i64,
    pub entries: Seq<EntryView>,
}

impl View for Run {
    type V = RunView;

    open spec fn view(&self) -> RunView {
        RunView { when: self.when, entries: self.entries@.map_values(|e: Entry| e@) }
    }
}

pub open spec fn sum_added(s: Seq<EntryView>) -> nat
    decreases s.len(),
{
    if s.len() == 0 { 0 } else { sum_added(s.drop_last()) + s.last().added as nat }
}

pub open spec fn sum_changed(s: Seq<EntryView>) -> nat
    decreases s.len(),
{
    if s.len() == 0 { 0 } else { sum_changed(s.drop_last()) + s.last().changed as nat }
}

pub open spec fn sum_removed(s: Seq<EntryView>) -> nat
    decreases s.len(),
{
    if s.len() == 0 { 0 } else { sum_removed(s.drop_last()) + s.last().removed as nat }
}

pub open spec fn sum_files(s: Seq<EntryView>) -> nat
    decreases s.len(),
{
    if s.len() == 0 { 0 } else { sum_files(s.drop_last()) + s.last().files as nat }
}

pub open spec fn sum_bytes(s: Seq<EntryView>) -> nat
    decreases s.len(),
{
    if s.len() == 0 { 0 } else { sum_bytes(s.drop_last()) + s.last().bytes as nat }
}

/// Which of the counts of an entry a total adds up.
#[derive(Clone, Copy, Debug, PartialEq, Eq, Structural)]
enum Count {
    Added,
    Changed,
    Removed,
    Files,
}

spec fn count_of(e: EntryView, which: Count) -> nat {
    match which {
        Count::Added => e.added as nat,
        Count::Changed => e.changed as nat,
        Count::Removed => e.removed as nat,
        Count::Files => e.files as nat,
    }
}

spec fn sum_of(s: Seq<EntryView>, which: Count) -> nat {
    match which {
        Count::Added => sum_added(s),
        Count::Changed => sum_changed(s),
        Count::Removed => sum_removed(s),
        Count::Files => sum_files(s),
    }
}

proof fn lemma_sum_prefix(s: Seq<EntryView>, which: Count, i: int)
    requires
        0 <= i < s.len(),
    ensures
        sum_of(s.take(i + 1), which) == sum_of(s.take(i), which) + count_of(s[i], which),
        sum_of(s.take(i), which) <= sum_of(s.take(i + 1), which),
{
    assert(s.take(i + 1).drop_last() == s.take(i));
}

proof fn lemma_sum_monotone(s: Seq<EntryView>, which: Count, i: int)
    requires
        0 <= i <= s.len(),
    ensures
        sum_of(s.take(i), which) <= sum_of(s, which),
    decreases s.len() - i,
{
    if i < s.len() {
        lemma_sum_prefix(s, which, i);
        lemma_sum_monotone(s, which, i + 1);
    } else {
        assert(s.take(i) == s);
    }
}

impl Run {
    fn total(&self, which: Count) -> (r: usize)
        requires
            sum_of(self@.entries, which) <= usize::MAX,
        ensures
            r == sum_of(self@.entries, which),
    {
        let ghost s = self@.entries;
        let mut total: usize = 0;
        let mut i: usize = 0;
        assert(s.take(0) =~= Seq::<EntryView>::empty());
        while i < self.entries.len()
            invariant
                i <= self.entries.len(),
                s == self@.entries,
                sum_of(s, which) <= usize::MAX,
                total == sum_of(s.take(i as int), which),
            decreases self.entries.len() - i,
        {
            proof {
                lemma_sum_prefix(s, which, i as int);
                lemma_sum_monotone(s, which, i + 1);
            }
            let e = &self.entries[i];
            assert(s[i as int] == e@);
            let n = match which {
                Count::Added => e.added,
                Count::Changed => e.changed,
                Count::Removed => e.removed,
                Count::Files => e.files,
            };
            total = total + n;
            i = i + 1;
        }
        assert(s.take(i as int) == s);
        total
    }

    pub fn added(&self) -> (r: usize)
        requires
            sum_added(self@.entries) <= usize::MAX,
        ensures
            r == sum_added(self@.entries),
    {
        self.total(Count::Added)
    }

    pub fn changed(&self) -> (r: usize)
        requires
            sum_changed(self@.entries) <= usize::MAX,
        ensures
            r == sum_changed(self@.entries),
    {
        self.total(Count::Changed)
    }

    pub fn removed(&self) -> (r: usize)
        requires
            sum_removed(self@.entries) <= usize::MAX,
        ensures
            r == sum_removed(self@.entries),
    {
        self.total(Count::Removed)
    }

    pub fn files(&self) -> (r: usize)
        requires
            sum_files(self@.entries) <= usize::MAX,
        ensures
            r == sum_files(self@.entries),
    {
        self.total(Count::Files)
    }

    pub fn bytes(&self) -> (r: u64)
        requires
            sum_bytes(self@.entries) <= u64::MAX,
        ensures
            r == sum_bytes(self@.entries),
    {
        let ghost s = self@.entries;
        let mut total: u64 = 0;
        let mut i: usize = 0;
        assert(s.take(0) =~= Seq::<EntryView>::empty());
        while i < self.entries.len()
            invariant
                i <= self.entries.len(),
                s == self@.entries,
                sum_bytes(s) <= u64::MAX,
                total == sum_bytes(s.take(i as int)),
            decreases self.entries.len() - i,
        {
            proof {
                assert(s.take(i + 1).drop_last() == s.take(i as int));
                lemma_bytes_monotone(s, i + 1);
            }
            assert(s[i as int] == self.entries@[i as int]@);
            total = total + self.entries[i].bytes;
            i = i + 1;
        }
        assert(s.take(i as int) == s);
        total
    }
}

proof fn lemma_bytes_monotone(s: Seq<EntryView>, i: int)
    requires
        0 <= i <= s.len(),
    ensures
        sum_bytes(s.take(i)) <= sum_bytes(s),
    decreases s.len() - i,
{
    if i < s.len() {
        assert(s.take(i + 1).drop_last() == s.take(i));
        lemma_bytes_monotone(s, i + 1);
    } else {
        assert(s.take(i) == s);
    }
}

/// One phrase of what a backup changed, translated where it is shown and joined with ` · `.
#[derive(Clone, Copy, Debug, PartialEq, Eq, Structural)]
pub enum ChangePhrase {
    NoChange,
    Added(usize),
    Changed(usize),
    Removed(usize),
}

/// The phrases for these counts: nothing changed, or each count that is not zero, in order.
pub open spec fn change_phrases(added: nat, changed: nat, removed: nat) -> Seq<ChangePhrase> {
    if added == 0 && changed == 0 && removed == 0 {
        seq![ChangePhrase::NoChange]
    } else {
        (if added > 0 { seq![ChangePhrase::Added(added as usize)] } else { seq![] }) + (if changed > 0 {
            seq![ChangePhrase::Changed(changed as usize)]
        } else {
            seq![]
        }) + (if removed > 0 { seq![ChangePhrase::Removed(removed as usize)] } else { seq![] })
    }
}

fn phrases(added: usize, changed: usize, removed: usize) -> (r: Vec<ChangePhrase>)
    ensures
        r@ == change_phrases(added as nat, changed as nat, removed as nat),
{
    if added == 0 && changed == 0 && removed == 0 {
        let r = vec![ChangePhrase::NoChange];
        assert(r@ =~= seq![ChangePhrase::NoChange]);
        return r;
    }
    let mut parts: Vec<ChangePhrase> = Vec::new();
    if added > 0 {
        parts.push(ChangePhrase::Added(added));
    }
    let ghost first = parts@;
    if changed > 0 {
        parts.push(ChangePhrase::Changed(changed));
    }
    let ghost second = parts@;
    if removed > 0 {
        parts.push(ChangePhrase::Removed(removed));
    }
    assert(first =~= (if added > 0 { seq![ChangePhrase::Added(added)] } else { seq![] }));
    assert(parts@ =~= change_phrases(added as nat, changed as nat, removed as nat));
    parts
}

impl Run {
    /// What the whole run changed, in the same shape a single entry uses.
    pub fn change(&self) -> (r: Vec<ChangePhrase>)
        requires
            sum_added(self@.entries) <= usize::MAX,
            sum_changed(self@.entries) <= usize::MAX,
            sum_removed(self@.entries) <= usize::MAX,
        ensures
            r@ == change_phrases(sum_added(self@.entries), sum_changed(self@.entries), sum_removed(self@.entries)),
    {
        phrases(self.added(), self.changed(), self.removed())
    }
}

impl Entry {
    /// What the backup changed, so the column reads instead of being decoded.
    pub fn change(&self) -> (r: Vec<ChangePhrase>)
        ensures
            r@ == change_phrases(self.added as nat, self.changed as nat, self.removed as nat),
    {
        phrases(self.added, self.changed, self.removed)
    }
}

#[derive(Clone, Debug, Default)]
pub struct Logs {
    pub runs: Vec<Run>,
    /// Set once the backup folder has been read, so an empty vector can say "nothing here yet"
    /// instead of "not looked yet". They are different answers and deserve different screens.
    pub loaded: bool,
    /// The run the user opened, if any. Keyed by its instant and not by its position, so reloading
    /// the log while a run is open cannot quietly show a different one.
    pub opened: Option<i64>,
}

/// The entry joins the run being built: it carries the run's instant, or, while the run has not
/// proved itself exact, it started within the gap of the backup before it.
pub open spec fn joins_run(run: RunView, sealed: bool, e: EntryView) -> bool {
    run.when == e.when || (!sealed && run.entries.last().when - e.when <= RUN_GAP)
}

/// The runs the entries make, in the order they come, and whether the run being built has shown
/// two entries sharing one instant.
pub open spec fn chained(entries: Seq<EntryView>) -> (Seq<RunView>, bool)
    decreases entries.len(),
{
    if entries.len() == 0 {
        (seq![], false)
    } else {
        let (runs, sealed) = chained(entries.drop_last());
        let e = entries.last();
        if runs.len() > 0 && joins_run(runs.last(), sealed, e) {
            (
                runs.update(runs.len() - 1, RunView { when: runs.last().when, entries: runs.last().entries.push(e) }),
                sealed || runs.last().when == e.when,
            )
        } else {
            (runs.push(RunView { when: e.when, entries: seq![e] }), false)
        }
    }
}

pub open spec fn name_position(s: Seq<EntryView>, x: EntryView, j: int) -> int
    decreases s.len() - j,
{
    if j >= s.len() || j < 0 {
        s.len() as int
    } else if lex_lt(x.game, s[j].game) {
        j
    } else {
        name_position(s, x, j + 1)
    }
}

/// The entries ordered by game name; entries of one name keep their order.
pub open spec fn by_name(s: Seq<EntryView>) -> Seq<EntryView>
    decreases s.len(),
{
    if s.len() == 0 {
        s
    } else {
        let t = by_name(s.drop_last());
        t.insert(name_position(t, s.last(), 0), s.last())
    }
}

/// The runs of the backups, which come newest first, each ordered by game name.
pub open spec fn runs_of(entries: Seq<EntryView>) -> Seq<RunView> {
    chained(entries).0.map_values(|r: RunView| RunView { when: r.when, entries: by_name(r.entries) })
}

proof fn lemma_chained_runs_nonempty(entries: Seq<EntryView>)
    ensures
        forall|k: int| 0 <= k < chained(entries).0.len() ==> (#[trigger] chained(entries).0[k]).entries.len() > 0,
    decreases entries.len(),
{
    if entries.len() > 0 {
        lemma_chained_runs_nonempty(entries.drop_last());
        let (runs, sealed) = chained(entries.drop_last());
        let next = chained(entries).0;
        assert forall|k: int| 0 <= k < next.len() implies (#[trigger] next[k]).entries.len() > 0 by {
            if k < runs.len() && !(k == runs.len() - 1 && runs.len() > 0 && joins_run(runs.last(), sealed, entries.last())) {
                assert(next[k] == runs[k]);
            }
        }
    }
}

proof fn lemma_name_position_bounds(s: Seq<EntryView>, x: EntryView, j: int)
    requires
        0 <= j <= s.len(),
    ensures
        j <= name_position(s, x, j) <= s.len(),
    decreases s.len() - j,
{
    if j < s.len() {
        lemma_name_position_bounds(s, x, j + 1);
    }
}

/// The entries of a run, ordered by game name.
fn order_by_name(entries: Vec<Entry>) -> (r: Vec<Entry>)
    ensures
        r@.map_values(|e: Entry| e@) == by_name(entries@.map_values(|e: Entry| e@)),
{
    let ghost all = entries@.map_values(|e: Entry| e@);
    let n = entries.len();
    let mut rest = entries;
    let mut sorted: Vec<Entry> = Vec::new();
    let mut m: usize = 0;
    assert(all.take(0) =~= Seq::<EntryView>::empty());
    assert(sorted@.map_values(|e: Entry| e@) =~= Seq::<EntryView>::empty());
    assert forall|k: int| 0 <= k < rest@.len() implies (#[trigger] rest@[k])@ == all[0 + k] by {
        assert(all[k] == rest@[k]@);
    }
    while m < n
        invariant
            m <= n,
            n == all.len(),
            rest@.len() == n - m,
            forall|k: int| 0 <= k < rest@.len() ==> (#[trigger] rest@[k])@ == all[m + k],
            sorted@.map_values(|e: Entry| e@) == by_name(all.take(m as int)),
        decreases n - m,
    {
        let x = rest.remove(0);
        assert(x@ == all[m as int]);
        assert(all.take(m + 1).drop_last() == all.take(m as int));
        assert(all.take(m + 1).last() == all[m as int]);
        let ghost t = sorted@.map_values(|e: Entry| e@);
        let name = crate::scan::emulator::text::chars_of(x.game.as_str());
        let mut j: usize = 0;
        let mut stop = false;
        while j < sorted.len() && !stop
            invariant
                j <= sorted.len(),
                t == sorted@.map_values(|e: Entry| e@),
                name@ == x@.game,
                !stop ==> name_position(t, x@, 0) == name_position(t, x@, j as int),
                stop ==> j < sorted.len() && name_position(t, x@, 0) == j,
            decreases sorted.len() - j + if stop { 0int } else { 1int },
        {
            let other = crate::scan::emulator::text::chars_of(sorted[j].game.as_str());
            assert(t[j as int].game == other@);
            if lex_less(&name, &other) {
                stop = true;
            } else {
                j = j + 1;
            }
        }
        proof {
            lemma_name_position_bounds(t, x@, 0);
        }
        let ghost xv = x@;
        sorted.insert(j, x);
        assert(sorted@.map_values(|e: Entry| e@) =~= t.insert(j as int, xv));
        m = m + 1;
    }
    assert(all.take(m as int) =~= all);
    sorted
}

impl Logs {
    /// The log, rebuilt from the backups themselves: what the backup folder holds, measured one
    /// backup against the other and gathered into runs. Nothing is open.
    pub fn load(games: &Vec<GameBackups>) -> (r: Logs)
        requires
            forall|k: int| 0 <= k < games@.len() ==> backups_well_formed((#[trigger] games@[k])@),
            forall|k: int|
                0 <= k < games@.len() ==> sizes_fit(
                    (#[trigger] games@[k])@.name,
                    games@[k]@.emulator,
                    games@[k]@.backups,
                    games@[k]@.backups.len() as int,
                ),
        ensures
            r.loaded,
            r.opened is None,
            r.runs@.map_values(|x: Run| x@) == runs_of(vault_entries(games@.map_values(|g: GameBackups| g@))),
    {
        Logs { runs: Self::group_into_runs(entries(games)), loaded: true, opened: None }
    }

    /// Gathers the game-backups, newest first, into the executions that produced them.
    ///
    /// From this version on the grouping is **exact**: every game of one run is stamped with the
    /// same instant, so an equal timestamp means the same execution and nothing is being guessed.
    ///
    /// For older backups it cannot be exact, because each game was stamped with its own `now` as
    /// it finished, seconds apart. Those entries are gathered by the gap between them: while each
    /// backup starts within [`RUN_GAP`] of the previous one, they are one execution. Chaining on
    /// the gap keeps a long run together for as long as it kept working, and still separates two
    /// runs that have a real pause between them.
    ///
    /// **A run that has proved itself exact stops accepting the gap.** As soon as two entries
    /// share an instant, only an equal timestamp can join it. Without that seal, two real runs a
    /// minute apart would be shown as one.
    ///
    /// Inside a run the order is the user's, not the thread pool's: by game name.
    pub fn group_into_runs(entries: Vec<Entry>) -> (r: Vec<Run>)
        ensures
            r@.map_values(|x: Run| x@) == runs_of(entries@.map_values(|e: Entry| e@)),
    {
        let ghost all = entries@.map_values(|e: Entry| e@);
        let n = entries.len();
        let mut rest = entries;
        let mut runs: Vec<Run> = Vec::new();
        let mut sealed = false;
        let mut i: usize = 0;
        assert(all.take(0) =~= Seq::<EntryView>::empty());
        assert(runs@.map_values(|x: Run| x@) =~= Seq::<RunView>::empty());
        assert forall|k: int| 0 <= k < rest@.len() implies (#[trigger] rest@[k])@ == all[0 + k] by {
            assert(all[k] == rest@[k]@);
        }
        while i < n
            invariant
                i <= n,
                n == all.len(),
                rest@.len() == n - i,
                forall|k: int| 0 <= k < rest@.len() ==> (#[trigger] rest@[k])@ == all[i + k],
                runs@.map_values(|x: Run| x@) == chained(all.take(i as int)).0,
                sealed == chained(all.take(i as int)).1,
            decreases n - i,
        {
            let e = rest.remove(0);
            assert(e@ == all[i as int]);
            assert(all.take(i + 1).drop_last() == all.take(i as int));
            assert(all.take(i + 1).last() == all[i as int]);
            let ghost before = runs@.map_values(|x: Run| x@);
            proof {
                lemma_chained_runs_nonempty(all.take(i as int));
            }
            let count = runs.len();
            let joins = if count == 0 {
                false
            } else if runs[count - 1].when == e.when {
                true
            } else if !sealed {
                assert(before[count - 1].entries.len() > 0);
                let last_entries = &runs[count - 1].entries;
                let last = &last_entries[last_entries.len() - 1];
                assert(before[count - 1].entries.last() == last@);
                (last.when as i128) - (e.when as i128) <= RUN_GAP as i128
            } else {
                false
            };
            if joins {
                let mut run = runs.pop().unwrap();
                assert(run@ == before[count - 1]);
                let same = run.when == e.when;
                sealed = sealed || same;
                let ghost ev = e@;
                run.entries.push(e);
                assert(run@.entries =~= before[count - 1].entries.push(ev));
                runs.push(run);
                assert(runs@.map_values(|x: Run| x@) =~= before.update(
                    before.len() - 1,
                    RunView { when: before.last().when, entries: before.last().entries.push(ev) },
                ));
            } else {
                sealed = false;
                let ghost ev = e@;
                let when = e.when;
                let run = Run { when, entries: vec![e] };
                assert(run@.entries =~= seq![ev]);
                runs.push(run);
                assert(runs@.map_values(|x: Run| x@) =~= before.push(RunView { when: ev.when, entries: seq![ev] }));
            }
            i = i + 1;
        }
        assert(all.take(i as int) =~= all);
        let ghost grouped = chained(all).0;
        let total = runs.len();
        let mut ordered: Vec<Run> = Vec::new();
        let mut q: usize = 0;
        assert(ordered@.map_values(|x: Run| x@) =~= grouped.take(0).map_values(
            |r: RunView| RunView { when: r.when, entries: by_name(r.entries) },
        ));
        assert forall|k: int| 0 <= k < runs@.len() implies (#[trigger] runs@[k])@ == grouped[0 + k] by {
            assert(grouped[k] == runs@[k]@);
        }
        while q < total
            invariant
                q <= total,
                total == grouped.len(),
                runs@.len() == total - q,
                forall|k: int| 0 <= k < runs@.len() ==> (#[trigger] runs@[k])@ == grouped[q + k],
                ordered@.map_values(|x: Run| x@) == grouped.take(q as int).map_values(
                    |r: RunView| RunView { when: r.when, entries: by_name(r.entries) },
                ),
            decreases total - q,
        {
            let run = runs.remove(0);
            assert(run@ == grouped[q as int]);
            let ghost before = ordered@.map_values(|x: Run| x@);
            let when = run.when;
            let entries = order_by_name(run.entries);
            let placed = Run { when, entries };
            assert(placed@ == RunView { when: grouped[q as int].when, entries: by_name(grouped[q as int].entries) });
            let ghost pv = placed@;
            ordered.push(placed);
            assert(ordered@.map_values(|x: Run| x@) =~= before.push(pv));
            q = q + 1;
            assert(grouped.take(q as int) =~= grouped.take(q - 1).push(grouped[q - 1]));
            assert(ordered@.map_values(|x: Run| x@) =~= grouped.take(q as int).map_values(
                |r: RunView| RunView { when: r.when, entries: by_name(r.entries) },
            ));
        }
        assert(grouped.take(q as int) =~= grouped);
        ordered
    }
}

/// The backups of the runs, run after run.
pub open spec fn flattened(runs: Seq<RunView>) -> Seq<EntryView>
    decreases runs.len(),
{
    if runs.len() == 0 {
        seq![]
    } else {
        flattened(runs.drop_last()) + runs.last().entries
    }
}

/// Grouping loses no backup and invents none: the runs, read one after the other, are exactly the
/// backups in the order they came. And each run carries the instant of the first backup that
/// opened it.
pub proof fn grouping_keeps_every_backup_in_order(entries: Seq<EntryView>)
    ensures
        flattened(chained(entries).0) == entries,
        forall|k: int|
            0 <= k < chained(entries).0.len() ==> (#[trigger] chained(entries).0[k]).entries.len() > 0
                && chained(entries).0[k].when == chained(entries).0[k].entries[0].when,
    decreases entries.len(),
{
    if entries.len() > 0 {
        grouping_keeps_every_backup_in_order(entries.drop_last());
        let (runs, sealed) = chained(entries.drop_last());
        let e = entries.last();
        let next = chained(entries).0;
        if runs.len() > 0 && joins_run(runs.last(), sealed, e) {
            let last = runs.last();
            assert(next.drop_last() =~= runs.drop_last());
            assert(next.last().entries == last.entries.push(e));
            assert(flattened(runs) == flattened(runs.drop_last()) + last.entries);
            assert(flattened(next) =~= flattened(runs).push(e));
            assert forall|k: int| 0 <= k < next.len() implies (#[trigger] next[k]).entries.len() > 0 && next[k].when == next[k].entries[0].when by {
                if k < runs.len() - 1 {
                    assert(next[k] == runs[k]);
                } else {
                    assert(runs[k] == last);
                    assert(next[k].entries[0] == last.entries[0]);
                }
            }
        } else {
            assert(next.drop_last() =~= runs);
            assert(flattened(next) =~= flattened(runs).push(e));
            assert forall|k: int| 0 <= k < next.len() implies (#[trigger] next[k]).entries.len() > 0 && next[k].when == next[k].entries[0].when by {
                if k < runs.len() {
                    assert(next[k] == runs[k]);
                }
            }
        }
        assert(entries.drop_last().push(e) =~= entries);
    }
}

proof fn lemma_chained_tail(entries: Seq<EntryView>)
    requires
        entries.len() > 0,
    ensures
        chained(entries).0.len() > 0,
        chained(entries).0.last().entries.len() > 0,
        chained(entries).0.last().entries.last() == entries.last(),
        chained(entries).1 ==> chained(entries).0.last().when == entries.last().when,
    decreases entries.len(),
{
    let (runs, sealed) = chained(entries.drop_last());
    let e = entries.last();
    if runs.len() > 0 && joins_run(runs.last(), sealed, e) {
        if entries.len() > 1 {
            lemma_chained_tail(entries.drop_last());
        }
    }
}

/// Backups of one instant are one execution: a backup stamped with the same instant as the one
/// before it joins that one's run and opens no new run.
pub proof fn backups_of_one_instant_share_a_run(entries: Seq<EntryView>, n: int)
    requires
        0 < n < entries.len(),
        entries[n - 1].when == entries[n].when,
    ensures
        chained(entries.take(n + 1)).0.len() == chained(entries.take(n)).0.len(),
        chained(entries.take(n + 1)).0.last().entries.last() == entries[n],
{
    let before = entries.take(n);
    let now = entries.take(n + 1);
    assert(now.drop_last() =~= before);
    assert(now.last() == entries[n]);
    assert(before.last() == entries[n - 1]);
    lemma_chained_tail(before);
    let (runs, sealed) = chained(before);
    let last = runs.last().entries.last();
    assert(last == entries[n - 1]);
    assert(joins_run(runs.last(), sealed, entries[n]));
}


proof fn lemma_name_position_props(t: Seq<EntryView>, x: EntryView, j: int)
    requires
        0 <= j <= t.len(),
    ensures
        forall|k: int| j <= k < name_position(t, x, j) ==> !lex_lt(x.game, (#[trigger] t[k]).game),
        name_position(t, x, j) < t.len() ==> lex_lt(x.game, t[name_position(t, x, j)].game),
    decreases t.len() - j,
{
    if j < t.len() {
        lemma_name_position_props(t, x, j + 1);
    }
}

/// No entry comes after one whose game name sorts after its own.
pub open spec fn by_game_name(s: Seq<EntryView>) -> bool {
    forall|i: int, j: int| 0 <= i < j < s.len() ==> !lex_lt((#[trigger] s[j]).game, (#[trigger] s[i]).game)
}

proof fn lemma_by_name(s: Seq<EntryView>)
    ensures
        by_game_name(by_name(s)),
        by_name(s).to_multiset() == s.to_multiset(),
        by_name(s).len() == s.len(),
    decreases s.len(),
{
    broadcast use vstd::seq_lib::group_to_multiset_ensures;

    if s.len() > 0 {
        let t = by_name(s.drop_last());
        lemma_by_name(s.drop_last());
        let x = s.last();
        lemma_name_position_bounds(t, x, 0);
        lemma_name_position_props(t, x, 0);
        let p = name_position(t, x, 0);
        let u = t.insert(p, x);
        assert(u == by_name(s));
        vstd::seq_lib::to_multiset_insert(t, p, x);
        assert(s =~= s.drop_last().push(x));
        vstd::seq_lib::to_multiset_build(s.drop_last(), x);
        assert forall|i: int, j: int| 0 <= i < j < u.len() implies !lex_lt((#[trigger] u[j]).game, (#[trigger] u[i]).game) by {
            if j < p {
                assert(u[i] == t[i] && u[j] == t[j]);
            } else if j == p {
                assert(u[i] == t[i] && u[j] == x);
            } else if i > p {
                assert(u[i] == t[i - 1] && u[j] == t[j - 1]);
            } else if i == p {
                assert(u[i] == x && u[j] == t[j - 1]);
                if lex_lt(t[j - 1].game, x.game) {
                    if j - 1 > p {
                        lemma_lex_transitive(t[j - 1].game, x.game, t[p].game);
                    } else {
                        lemma_lex_asymmetric(x.game, t[p].game);
                    }
                }
            } else {
                assert(u[i] == t[i] && u[j] == t[j - 1]);
            }
        }
    }
}

/// Inside a run the backups come by game name, not in whatever order the backups finished; a run
/// holds exactly the backups that the grouping gave it and carries its instant.
pub proof fn each_run_comes_by_game_name(entries: Seq<EntryView>)
    ensures
        runs_of(entries).len() == chained(entries).0.len(),
        forall|k: int|
            0 <= k < runs_of(entries).len() ==> {
                &&& by_game_name((#[trigger] runs_of(entries)[k]).entries)
                &&& runs_of(entries)[k].entries.to_multiset() == chained(entries).0[k].entries.to_multiset()
                &&& runs_of(entries)[k].when == chained(entries).0[k].when
            },
{
    assert forall|k: int| 0 <= k < runs_of(entries).len() implies {
        &&& by_game_name((#[trigger] runs_of(entries)[k]).entries)
        &&& runs_of(entries)[k].entries.to_multiset() == chained(entries).0[k].entries.to_multiset()
        &&& runs_of(entries)[k].when == chained(entries).0[k].when
    } by {
        lemma_by_name(chained(entries).0[k].entries);
    }
}

} // verus!
