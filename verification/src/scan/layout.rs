//! What a backup records about the folders its files came from.
use vstd::prelude::*;

use crate::scan::emulator::text::chars_of;
use crate::scan::emulator::{lemma_lex_irreflexive, lemma_lex_total, lemma_lex_transitive, lex_less, lex_lt, App, Area};

verus! {

/// What kind of folder a recorded directory is.
#[derive(Clone, Copy, Debug, PartialEq, Eq, Structural)]
pub enum SemanticDirKind {
    /// A Wine prefix.
    Wine,
    /// An area of an emulator's data folder: the anchor the backup recorded.
    Emulator { app: App, area: Area },
}

#[derive(Clone, Copy, Debug, PartialEq, Eq, Structural)]
pub struct DirectorySemantics {
    pub kind: SemanticDirKind,
}

/// The folders are listed by path, each once, in the order of their paths.
pub open spec fn keys_ascending(dirs: Seq<(Seq<char>, SemanticDirKind)>) -> bool {
    forall|i: int, j: int| 0 <= i < j < dirs.len() ==> lex_lt(#[trigger] dirs[i].0, #[trigger] dirs[j].0)
}

/// The recorded folders of a backup, each with what it is: a map from path to kind, walked in the
/// order of the paths.
#[derive(Debug)]
pub struct BackupSemantics {
    directories: Vec<(String, DirectorySemantics)>,
}

impl View for BackupSemantics {
    type V = Seq<(Seq<char>, SemanticDirKind)>;

    closed spec fn view(&self) -> Self::V {
        self.directories@.map_values(|d: (String, DirectorySemantics)| (d.0@, d.1.kind))
    }
}

impl BackupSemantics {
    #[verifier::type_invariant]
    spec fn paths_in_order(self) -> bool {
        keys_ascending(self@)
    }

    /// No folder recorded.
    pub fn new() -> (r: BackupSemantics)
        ensures
            r@ == Seq::<(Seq<char>, SemanticDirKind)>::empty(),
    {
        let r = BackupSemantics { directories: Vec::new() };
        assert(r@ =~= Seq::<(Seq<char>, SemanticDirKind)>::empty());
        r
    }

    /// The recorded folders, in the order of their paths.
    pub fn directories(&self) -> (r: &Vec<(String, DirectorySemantics)>)
        ensures
            r@.map_values(|d: (String, DirectorySemantics)| (d.0@, d.1.kind)) == self@,
            keys_ascending(self@),
    {
        proof {
            use_type_invariant(self);
        }
        &self.directories
    }

    /// Records what a folder is; a folder recorded before is recorded anew.
    pub fn insert(&mut self, path: String, semantics: DirectorySemantics)
        ensures
            keys_ascending(final(self)@),
            forall|e: (Seq<char>, SemanticDirKind)|
                #[trigger] final(self)@.contains(e) <==> (e == (path@, semantics.kind) || (old(self)@.contains(e)
                    && e.0 != path@)),
    {
        proof {
            use_type_invariant(&*self);
        }
        let ghost before = self@;
        let key = chars_of(path.as_str());
        let n = self.directories.len();
        let mut p: usize = 0;
        let mut found = false;
        while p < n && !found
            invariant
                n == self.directories.len(),
                before == self@,
                keys_ascending(before),
                key@ == path@,
                p <= n,
                forall|i: int| 0 <= i < p ==> lex_lt(#[trigger] before[i].0, path@),
                found ==> p < n && !lex_lt(before[p as int].0, path@),
            decreases n - p + if found { 0int } else { 1int },
        {
            assert(before[p as int].0 == self.directories@[p as int].0@);
            let here = chars_of(self.directories[p].0.as_str());
            if lex_less(&here, &key) {
                p = p + 1;
            } else {
                found = true;
            }
        }
        let same = found && self.directories[p].0.eq(&path);
        let q: usize = if same { p + 1 } else { p };
        let mut out: Vec<(String, DirectorySemantics)> = Vec::new();
        let mut i: usize = 0;
        while i < p
            invariant
                p <= n,
                n == self.directories.len(),
                before == self@,
                i <= p,
                out@.map_values(|d: (String, DirectorySemantics)| (d.0@, d.1.kind)) == before.take(i as int),
            decreases p - i,
        {
            let ghost o = out@.map_values(|d: (String, DirectorySemantics)| (d.0@, d.1.kind));
            let e = (self.directories[i].0.clone(), self.directories[i].1);
            assert(before[i as int] == (self.directories@[i as int].0@, self.directories@[i as int].1.kind));
            assert((e.0@, e.1.kind) == before[i as int]);
            out.push(e);
            assert(before.take(i + 1) =~= before.take(i as int).push(before[i as int]));
            assert(out@.map_values(|d: (String, DirectorySemantics)| (d.0@, d.1.kind)) =~= before.take(i + 1));
            i = i + 1;
        }
        let ghost head = before.take(p as int);
        let ghost entry = (path@, semantics.kind);
        out.push((path, semantics));
        assert(out@.map_values(|d: (String, DirectorySemantics)| (d.0@, d.1.kind)) =~= head.push(entry));
        let mut j: usize = q;
        while j < n
            invariant
                q <= j <= n,
                n == self.directories.len(),
                before == self@,
                out@.map_values(|d: (String, DirectorySemantics)| (d.0@, d.1.kind)) == head.push(entry) + before.subrange(
                    q as int,
                    j as int,
                ),
            decreases n - j,
        {
            let ghost o = out@.map_values(|d: (String, DirectorySemantics)| (d.0@, d.1.kind));
            let e = (self.directories[j].0.clone(), self.directories[j].1);
            assert(before[j as int] == (self.directories@[j as int].0@, self.directories@[j as int].1.kind));
            assert((e.0@, e.1.kind) == before[j as int]);
            out.push(e);
            assert(out@.map_values(|d: (String, DirectorySemantics)| (d.0@, d.1.kind)) =~= o.push(before[j as int]));
            assert(before.subrange(q as int, j + 1) =~= before.subrange(q as int, j as int).push(before[j as int]));
            assert(out@.map_values(|d: (String, DirectorySemantics)| (d.0@, d.1.kind)) =~= head.push(entry)
                + before.subrange(q as int, j + 1));
            j = j + 1;
        }
        let ghost after = head.push(entry) + before.subrange(q as int, n as int);
        proof {
            assert(out@.map_values(|d: (String, DirectorySemantics)| (d.0@, d.1.kind)) == after);
            // Every folder from `q` on comes after the new one.
            assert forall|k: int| q <= k < n implies lex_lt(entry.0, #[trigger] before[k].0) by {
                if same {
                    assert(before[p as int].0 == entry.0);
                    assert(lex_lt(before[p as int].0, before[k].0));
                } else {
                    if found {
                        if before[p as int].0 != entry.0 {
                            lemma_lex_total(before[p as int].0, entry.0);
                        } else {
                            // `same` was false only because the two paths differ.
                        }
                        if k > p {
                            lemma_lex_transitive(entry.0, before[p as int].0, before[k].0);
                        }
                    }
                }
            }
            assert forall|a: int, b: int| 0 <= a < b < after.len() implies lex_lt(#[trigger] after[a].0, #[trigger] after[b].0) by {
                if b < p {
                    assert(after[a] == before[a] && after[b] == before[b]);
                } else if b == p {
                    assert(after[a] == before[a] && after[b] == entry);
                } else if a < p {
                    let kb = b - p - 1 + q;
                    assert(after[a] == before[a] && after[b] == before[kb]);
                    lemma_lex_transitive(before[a].0, entry.0, before[kb].0);
                } else if a == p {
                    assert(after[b] == before[b - p - 1 + q]);
                } else {
                    assert(after[a] == before[a - p - 1 + q] && after[b] == before[b - p - 1 + q]);
                }
            }
            assert forall|e: (Seq<char>, SemanticDirKind)| #[trigger] after.contains(e) <==> (e == entry || (before.contains(e)
                && e.0 != entry.0)) by {
                if after.contains(e) {
                    let a = choose|a: int| 0 <= a < after.len() && after[a] == e;
                    if a < p {
                        assert(after[a] == before[a]);
                        lemma_lex_irreflexive(entry.0);
                    } else if a > p {
                        assert(after[a] == before[a - p - 1 + q]);
                        lemma_lex_irreflexive(entry.0);
                    }
                }
                if e == entry {
                    assert(after[p as int] == entry);
                } else if before.contains(e) && e.0 != entry.0 {
                    let k = choose|k: int| 0 <= k < before.len() && before[k] == e;
                    if k < p {
                        assert(after[k] == e);
                    } else if k >= q {
                        assert(after[k - q + p + 1] == e);
                    } else {
                        // k == p and the folder at `p` is the one being recorded anew.
                        assert(same);
                        assert(false);
                    }
                }
            }
        }
        self.directories = out;
    }
}

impl Default for BackupSemantics {
    /// No folder recorded.
    fn default() -> (r: BackupSemantics)
        ensures
            r@ == Seq::<(Seq<char>, SemanticDirKind)>::empty(),
    {
        BackupSemantics::new()
    }
}

impl Clone for BackupSemantics {
    fn clone(&self) -> (r: BackupSemantics)
        ensures
            r@ == self@,
    {
        proof {
            use_type_invariant(self);
        }
        let mut out: Vec<(String, DirectorySemantics)> = Vec::new();
        let mut i: usize = 0;
        while i < self.directories.len()
            invariant
                i <= self.directories.len(),
                keys_ascending(self@),
                out@.map_values(|d: (String, DirectorySemantics)| (d.0@, d.1.kind)) == self@.take(i as int),
            decreases self.directories.len() - i,
        {
            let e = (self.directories[i].0.clone(), self.directories[i].1);
            assert(self@[i as int] == (self.directories@[i as int].0@, self.directories@[i as int].1.kind));
            assert((e.0@, e.1.kind) == self@[i as int]);
            out.push(e);
            assert(self@.take(i + 1) =~= self@.take(i as int).push(self@[i as int]));
            assert(out@.map_values(|d: (String, DirectorySemantics)| (d.0@, d.1.kind)) =~= self@.take(i + 1));
            i = i + 1;
        }
        assert(self@.take(i as int) =~= self@);
        BackupSemantics { directories: out }
    }
}

/// The emulator of the first recorded emulator folder among the first `n`.
pub open spec fn first_emulator(dirs: Seq<(Seq<char>, SemanticDirKind)>, n: int) -> Option<App>
    decreases n,
{
    if n <= 0 {
        None
    } else {
        match first_emulator(dirs, n - 1) {
            Some(app) => Some(app),
            None => match dirs[n - 1].1 {
                SemanticDirKind::Emulator { app, area } => Some(app),
                SemanticDirKind::Wine => None,
            },
        }
    }
}

impl BackupSemantics {
    /// The emulator whose data the backup holds, as the scan recorded it.
    pub fn emulator(&self) -> (r: Option<App>)
        ensures
            r == first_emulator(self@, self@.len() as int),
    {
        let ghost dirs = self@;
        let mut i: usize = 0;
        while i < self.directories.len()
            invariant
                i <= self.directories.len(),
                dirs == self@,
                first_emulator(dirs, i as int) is None,
            decreases self.directories.len() - i,
        {
            assert(dirs[i as int].1 == self.directories@[i as int].1.kind);
            match self.directories[i].1.kind {
                SemanticDirKind::Emulator { app, area } => {
                    proof {
                        lemma_first_emulator_stays(dirs, i as int + 1, dirs.len() as int);
                    }
                    return Some(app);
                },
                SemanticDirKind::Wine => {},
            }
            i = i + 1;
        }
        None
    }
}

proof fn lemma_first_emulator_stays(dirs: Seq<(Seq<char>, SemanticDirKind)>, n: int, m: int)
    requires
        0 <= n <= m,
    ensures
        first_emulator(dirs, n) is Some ==> first_emulator(dirs, m) == first_emulator(dirs, n),
    decreases m - n,
{
    if n < m {
        lemma_first_emulator_stays(dirs, n, m - 1);
    }
}

} // verus!
