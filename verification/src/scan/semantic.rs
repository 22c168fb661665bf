//! Where a backed-up file has to go on this machine.
//!
//! A backup records, for each folder its files came from, what that folder was: a Wine prefix or
//! an area of an emulator's data folder. Restoring on another machine re-anchors the file onto
//! what that folder is here.
use vstd::prelude::*;

use crate::path::{all_normal, components, join, join_all, lemma_components_normal, lemma_tail_of_join, normal_segment, same_place, segments_joined, tail_under, StrictPath};
use crate::scan::emulator::text::{chars_of, opt_view, string_from};
use crate::scan::emulator::{app_profile, has_entry, places_of, App, Area, AreaSpecView, Disk, DiskView, EntryKind, Roots, RootsView};
use crate::scan::layout::{BackupSemantics, DirectorySemantics, SemanticDirKind};

verus! {

/// A Windows known folder that a path hangs from.
#[derive(Clone, Copy, Debug, PartialEq, Eq, Structural, PartialOrd, Ord, Hash)]
pub enum Base {
    WinHome,
    WinDocuments,
    WinAppData,
    WinLocalAppData,
    WinLocalAppDataLow,
    WinSavedGames,
    WinPublic,
    WinProgramData,
    WinDir,
    WinDrive(char),
}

/// A path told by the known folder it hangs from and the rest of it.
#[derive(Clone, Debug, PartialEq, Eq, PartialOrd, Ord, Hash)]
pub struct Path {
    pub base: Base,
    pub tail: String,
}

/// The Windows known folders of this machine.
#[derive(Clone, Debug, Default)]
pub struct KnownFolders {
    pub user_profile: Option<String>,
    pub documents: Option<String>,
    pub app_data: Option<String>,
    pub local_app_data: Option<String>,
    pub local_low_app_data: Option<String>,
    pub saved_games: Option<String>,
    pub public: Option<String>,
    pub program_data: Option<String>,
    pub windows: Option<String>,
}

/// A Wine prefix and the user inside it.
#[derive(Clone, Debug)]
pub struct Prefix {
    pub path: StrictPath,
    pub wine_user: String,
}

/// Context for resolving a restore target on the current machine.
///
/// Despite the name, this carries every source of re-anchoring, not only Wine.
pub struct Wine {
    /// First valid Wine prefix of the matching custom game.
    pub preferred_prefix: Option<Prefix>,
    /// Current Windows known folders, only populated on Windows.
    pub known_folders: Option<KnownFolders>,
    /// Emulator data folders present on this machine.
    pub emulators: Roots,
}

/// Why an emulator file's destination could not be determined.
#[derive(Clone, Copy, Debug, PartialEq, Eq, Structural, Ord, PartialOrd, Hash)]
pub enum Unresolved {
    /// No install of this emulator was found on this machine.
    EmulatorMissing(App),
    /// Two or more installs were found, so the destination is ambiguous. Choosing one would be
    /// guessing with the user's save data.
    EmulatorAmbiguous(App),
}

impl Unresolved {
    pub fn app(&self) -> (r: App)
        ensures
            r == match *self {
                Unresolved::EmulatorMissing(app) => app,
                Unresolved::EmulatorAmbiguous(app) => app,
            },
    {
        match self {
            Unresolved::EmulatorMissing(app) => *app,
            Unresolved::EmulatorAmbiguous(app) => *app,
        }
    }
}

pub enum TargetView {
    Settled,
    Redirected(Seq<char>),
    Unresolved(Unresolved),
}

/// What the emulator engine concluded about where a backed-up file should go.
#[derive(Clone, Debug, PartialEq, Eq)]
pub enum EmulatorTarget {
    /// Not an emulator file, or the emulator lives in the same place it did at backup time.
    /// Restoring to the path stored in the backup is correct.
    Settled,
    /// Re-anchored onto this machine.
    Redirected(StrictPath),
    /// This IS an emulator file, and the destination could not be determined.
    ///
    /// This case must never fall back to the absolute path from the backup. On a different
    /// machine that path is somebody else's user folder: the write would succeed, create the
    /// whole tree, and leave the user believing the save was restored while the emulator reads
    /// nothing. Refusing is the only honest outcome.
    Unresolved(Unresolved),
}

impl View for EmulatorTarget {
    type V = TargetView;

    open spec fn view(&self) -> TargetView {
        match self {
            EmulatorTarget::Settled => TargetView::Settled,
            EmulatorTarget::Redirected(p) => TargetView::Redirected(p@),
            EmulatorTarget::Unresolved(u) => TargetView::Unresolved(*u),
        }
    }
}

/// The index of the first area of `areas`, from `k` on, that is `area`.
pub open spec fn first_area_from(areas: Seq<AreaSpecView>, area: Area, k: int) -> Option<int>
    decreases areas.len() - k,
{
    if k >= areas.len() {
        None
    } else if areas[k].area == area {
        Some(k)
    } else {
        first_area_from(areas, area, k + 1)
    }
}

/// The subfolder the emulator keeps this area in.
pub open spec fn subdir_of(app: App, area: Area) -> Option<Seq<char>> {
    match first_area_from(app_profile(app).areas, area, 0) {
        Some(k) => Some(app_profile(app).areas[k].subdir@),
        None => None,
    }
}

/// Where a file recorded under an emulator area, with this tail below it, goes here.
pub open spec fn anchored(app: App, area: Area, recorded: Seq<char>, tail: Seq<Seq<char>>, roots: RootsView) -> TargetView {
    match subdir_of(app, area) {
        None => TargetView::Unresolved(Unresolved::EmulatorMissing(app)),
        Some(subdir) => {
            let found = places_of(roots, app);
            if found.len() != 1 {
                TargetView::Unresolved(
                    if found.len() > 1 {
                        Unresolved::EmulatorAmbiguous(app)
                    } else {
                        Unresolved::EmulatorMissing(app)
                    },
                )
            } else {
                let current_area = join(found[0], subdir);
                if same_place(current_area, recorded) {
                    TargetView::Settled
                } else {
                    TargetView::Redirected(join(current_area, join_all(tail)))
                }
            }
        },
    }
}

/// The decision for the recorded folders from the `k`-th on: the first emulator area that holds
/// the stored path decides; with none, the stored path stands.
pub open spec fn target_from(stored: Seq<char>, dirs: Seq<(Seq<char>, SemanticDirKind)>, roots: RootsView, k: int) -> TargetView
    decreases dirs.len() - k,
{
    if k >= dirs.len() || k < 0 {
        TargetView::Settled
    } else {
        match dirs[k].1 {
            SemanticDirKind::Emulator { app, area } => match tail_under(stored, dirs[k].0) {
                Some(tail) => anchored(app, area, dirs[k].0, tail, roots),
                None => target_from(stored, dirs, roots, k + 1),
            },
            SemanticDirKind::Wine => target_from(stored, dirs, roots, k + 1),
        }
    }
}

fn area_subdir(app: App, area: Area) -> (r: Option<&'static str>)
    ensures
        match r {
            Some(s) => subdir_of(app, area) == Some(s@),
            None => subdir_of(app, area) is None,
        },
{
    let profile = app.profile();
    let ghost areas = app_profile(app).areas;
    let mut k: usize = 0;
    while k < profile.areas.len()
        invariant
            k <= profile.areas.len(),
            profile@ == app_profile(app),
            areas == app_profile(app).areas,
            first_area_from(areas, area, 0) == first_area_from(areas, area, k as int),
        decreases profile.areas.len() - k,
    {
        assert(areas[k as int] == profile.areas@[k as int]@);
        if profile.areas[k].area == area {
            return Some(profile.areas[k].subdir);
        }
        k = k + 1;
    }
    None
}

/// Re-anchors a file from the emulator data folder recorded in the backup onto the one on this
/// machine.
///
/// This is the whole point of the product: the tail is reapplied literally, so
/// `memcards/SLUS-00067_1.mcd` stays `memcards/SLUS-00067_1.mcd` and only the root changes.
///
/// The recorded folder contains the stored path by comparing resolved segments, ignoring case,
/// and not by a string prefix: on Windows the case of a recorded path and of a live one do differ
/// in practice, a sibling folder whose name merely begins the same (`DuckStation2`) is not
/// inside, and a stored path that walks out of its area with `..` is not under it, so it is not
/// re-anchored.
pub fn emulator_restore_target(stored_path: &StrictPath, semantics: &BackupSemantics, emulators: &Roots) -> (r: EmulatorTarget)
    ensures
        r@ == target_from(stored_path@, semantics@, emulators@, 0),
{
    let ghost dirs = semantics@;
    let directories = semantics.directories();
    let mut k: usize = 0;
    while k < directories.len()
        invariant
            k <= directories.len(),
            dirs == semantics@,
            dirs == directories@.map_values(|d: (String, DirectorySemantics)| (d.0@, d.1.kind)),
            target_from(stored_path@, dirs, emulators@, 0) == target_from(stored_path@, dirs, emulators@, k as int),
        decreases directories.len() - k,
    {
        let (recorded, dir) = &directories[k];
        assert(dirs[k as int] == (recorded@, dir.kind));
        match dir.kind {
            SemanticDirKind::Emulator { app, area } => {
                let recorded_root = StrictPath::new(recorded.clone());
                match stored_path.case_insensitive_tail_for(&recorded_root) {
                    Some(tail) => {
                        let subdir = match area_subdir(app, area) {
                            Some(s) => s,
                            None => {
                                return EmulatorTarget::Unresolved(Unresolved::EmulatorMissing(app));
                            },
                        };
                        let current_root = match emulators.data_root(app) {
                            Some(root) => root,
                            None => {
                                let many = emulators.candidates(app).len() > 1;
                                return EmulatorTarget::Unresolved(
                                    if many {
                                        Unresolved::EmulatorAmbiguous(app)
                                    } else {
                                        Unresolved::EmulatorMissing(app)
                                    },
                                );
                            },
                        };
                        let current_area = current_root.joined(subdir);
                        if current_area.equivalent(&recorded_root) {
                            // Same place: the path in the backup is already right.
                            return EmulatorTarget::Settled;
                        }
                        let rest = segments_joined(&tail);
                        return EmulatorTarget::Redirected(current_area.joined(rest.as_str()));
                    },
                    None => {},
                }
            },
            SemanticDirKind::Wine => {},
        }
        k = k + 1;
    }
    EmulatorTarget::Settled
}

/// A re-anchored file lands under the emulator's current area with exactly the segments below it
/// that it had below the recorded area: only the root changes.
pub proof fn re_anchoring_keeps_the_tail(app: App, area: Area, recorded: Seq<char>, stored: Seq<char>, roots: RootsView)
    requires
        tail_under(stored, recorded) is Some,
        anchored(app, area, recorded, tail_under(stored, recorded)->0, roots) is Redirected,
    ensures
        tail_under(
            anchored(app, area, recorded, tail_under(stored, recorded)->0, roots)->Redirected_0,
            join(places_of(roots, app)[0], subdir_of(app, area)->0),
        ) == tail_under(stored, recorded),
{
    let cs = components(stored);
    let cr = components(recorded);
    let tail = cs.skip(cr.len() as int);
    lemma_components_normal(stored);
    assert forall|k: int| 0 <= k < tail.len() implies normal_segment(#[trigger] tail[k]) by {
        assert(tail[k] == cs[k + cr.len()]);
    }
    assert(all_normal(tail));
    let current_area = join(places_of(roots, app)[0], subdir_of(app, area)->0);
    lemma_tail_of_join(current_area, tail);
}

/// Only a file inside a recorded emulator area is ever re-anchored or refused: a file outside
/// every one of them, which includes one that walks out of its area with `..`, keeps its path.
pub proof fn only_files_inside_a_recorded_area_are_moved(
    stored: Seq<char>,
    dirs: Seq<(Seq<char>, SemanticDirKind)>,
    roots: RootsView,
    k: int,
)
    requires
        0 <= k,
        !(target_from(stored, dirs, roots, k) is Settled),
    ensures
        exists|j: int|
            k <= j < dirs.len() && (#[trigger] dirs[j]).1 is Emulator && tail_under(stored, dirs[j].0) is Some,
    decreases dirs.len() - k,
{
    if k < dirs.len() {
        match dirs[k].1 {
            SemanticDirKind::Emulator { app, area } => {
                if tail_under(stored, dirs[k].0) is Some {
                    assert(dirs[k].1 is Emulator);
                } else {
                    only_files_inside_a_recorded_area_are_moved(stored, dirs, roots, k + 1);
                    let j = choose|j: int|
                        k + 1 <= j < dirs.len() && (#[trigger] dirs[j]).1 is Emulator && tail_under(stored, dirs[j].0) is Some;
                    assert(k <= j);
                }
            },
            SemanticDirKind::Wine => {
                only_files_inside_a_recorded_area_are_moved(stored, dirs, roots, k + 1);
                let j = choose|j: int|
                    k + 1 <= j < dirs.len() && (#[trigger] dirs[j]).1 is Emulator && tail_under(stored, dirs[j].0) is Some;
                assert(k <= j);
            },
        }
    }
}

/// An emulator file is never sent to the path recorded in the backup when this machine has no
/// install of its emulator, or more than one: it is refused, and the refusal names the emulator
/// and says which of the two it was.
pub proof fn an_emulator_file_needs_exactly_one_install(
    app: App,
    area: Area,
    recorded: Seq<char>,
    tail: Seq<Seq<char>>,
    roots: RootsView,
)
    requires
        places_of(roots, app).len() != 1,
    ensures
        anchored(app, area, recorded, tail, roots) is Unresolved,
        subdir_of(app, area) is Some ==> anchored(app, area, recorded, tail, roots) == TargetView::Unresolved(
            if places_of(roots, app).len() > 1 {
                Unresolved::EmulatorAmbiguous(app)
            } else {
                Unresolved::EmulatorMissing(app)
            },
        ),
{
}

/// A backup with no emulator folder recorded is none of the emulator engine's business.
pub proof fn a_file_with_no_emulator_semantics_is_settled(
    stored: Seq<char>,
    dirs: Seq<(Seq<char>, SemanticDirKind)>,
    roots: RootsView,
    k: int,
)
    requires
        0 <= k,
        forall|j: int| 0 <= j < dirs.len() ==> (#[trigger] dirs[j]).1 == SemanticDirKind::Wine,
    ensures
        target_from(stored, dirs, roots, k) == TargetView::Settled,
    decreases dirs.len() - k,
{
    if k < dirs.len() {
        assert(dirs[k].1 == SemanticDirKind::Wine);
        a_file_with_no_emulator_semantics_is_settled(stored, dirs, roots, k + 1);
    }
}


/// The text with the separators `/` at its end taken off, as `trim_end_matches('/')` does.
pub open spec fn without_trailing_slashes(s: Seq<char>) -> Seq<char>
    decreases s.len(),
{
    if s.len() > 0 && s.last() == '/' {
        without_trailing_slashes(s.drop_last())
    } else {
        s
    }
}

fn trimmed_end(s: &str) -> (r: Vec<char>)
    ensures
        r@ == without_trailing_slashes(s@),
{
    let mut v = chars_of(s);
    while v.len() > 0 && v[v.len() - 1] == '/'
        invariant
            without_trailing_slashes(v@) == without_trailing_slashes(s@),
        decreases v.len(),
    {
        let ghost before = v@;
        v.pop();
        assert(v@ =~= before.drop_last());
    }
    v
}

fn push_text(out: &mut Vec<char>, s: &str)
    ensures
        final(out)@ == old(out)@ + s@,
{
    let mut more = chars_of(s);
    out.append(&mut more);
}

/// The folder of this machine that a known folder is, when it is known.
pub open spec fn known_folder(folders: KnownFolders, base: Base) -> Option<Seq<char>> {
    match base {
        Base::WinHome => opt_view(folders.user_profile),
        Base::WinDocuments => opt_view(folders.documents),
        Base::WinAppData => opt_view(folders.app_data),
        Base::WinLocalAppData => opt_view(folders.local_app_data),
        Base::WinLocalAppDataLow => opt_view(folders.local_low_app_data),
        Base::WinSavedGames => opt_view(folders.saved_games),
        Base::WinPublic => opt_view(folders.public),
        Base::WinProgramData => opt_view(folders.program_data),
        Base::WinDir => opt_view(folders.windows),
        Base::WinDrive(_) => None,
    }
}

/// Where a path told by its known folder lies on this Windows machine: under that folder, when
/// this machine knows it. A path on a bare drive letter has no known folder to follow.
pub open spec fn windows_target(semantic: Path, folders: KnownFolders) -> Option<Seq<char>> {
    match known_folder(folders, semantic.base) {
        Some(base) => Some(without_trailing_slashes(base) + seq!['/'] + semantic.tail@),
        None => None,
    }
}

/// The path on this Windows machine of a path told by its known folder, when the folder is known.
pub fn materialize_to_windows(semantic: &Path, folders: &KnownFolders) -> (r: Option<StrictPath>)
    ensures
        match r {
            Some(p) => windows_target(*semantic, *folders) == Some(p@),
            None => windows_target(*semantic, *folders) is None,
        },
{
    let base = match semantic.base {
        Base::WinHome => &folders.user_profile,
        Base::WinDocuments => &folders.documents,
        Base::WinAppData => &folders.app_data,
        Base::WinLocalAppData => &folders.local_app_data,
        Base::WinLocalAppDataLow => &folders.local_low_app_data,
        Base::WinSavedGames => &folders.saved_games,
        Base::WinPublic => &folders.public,
        Base::WinProgramData => &folders.program_data,
        Base::WinDir => &folders.windows,
        Base::WinDrive(_) => {
            return None;
        },
    };
    match base {
        Some(b) => {
            let mut out = trimmed_end(b.as_str());
            out.push('/');
            push_text(&mut out, semantic.tail.as_str());
            Some(StrictPath::new(string_from(&out)))
        },
        None => None,
    }
}

/// The folder inside a Wine prefix, below the prefix itself, that a known folder is.
pub open spec fn wine_folder(base: Base, user: Seq<char>) -> Seq<char> {
    match base {
        Base::WinDocuments => "drive_c/users/"@ + user + "/Documents"@,
        Base::WinAppData => "drive_c/users/"@ + user + "/AppData/Roaming"@,
        Base::WinLocalAppData => "drive_c/users/"@ + user + "/AppData/Local"@,
        Base::WinLocalAppDataLow => "drive_c/users/"@ + user + "/AppData/LocalLow"@,
        Base::WinSavedGames => "drive_c/users/"@ + user + "/Saved Games"@,
        Base::WinPublic => "drive_c/users/Public"@,
        Base::WinProgramData => "drive_c/ProgramData"@,
        Base::WinDir => "drive_c/Windows"@,
        Base::WinHome => "drive_c/users/"@ + user,
        Base::WinDrive(c) => "drive_"@ + seq![c],
    }
}

/// Where a path told by its known folder lies inside a Wine prefix. A drive other than `c` counts
/// only when the prefix has a folder for it.
pub open spec fn wine_target(semantic: Path, prefix: Seq<char>, user: Seq<char>, disk: DiskView) -> Option<Seq<char>> {
    if semantic.base matches Base::WinDrive(c) && c != 'c' && !has_entry(disk, join(prefix, "drive_"@ + seq![c]), EntryKind::Dir) {
        None
    } else {
        Some(without_trailing_slashes(prefix) + seq!['/'] + wine_folder(semantic.base, user) + seq!['/'] + semantic.tail@)
    }
}

fn wine_folder_text(base: Base, user: &String) -> (r: Vec<char>)
    ensures
        r@ == wine_folder(base, user@),
{
    let mut out: Vec<char> = Vec::new();
    match base {
        Base::WinDocuments => {
            push_text(&mut out, "drive_c/users/");
            push_text(&mut out, user.as_str());
            push_text(&mut out, "/Documents");
        },
        Base::WinAppData => {
            push_text(&mut out, "drive_c/users/");
            push_text(&mut out, user.as_str());
            push_text(&mut out, "/AppData/Roaming");
        },
        Base::WinLocalAppData => {
            push_text(&mut out, "drive_c/users/");
            push_text(&mut out, user.as_str());
            push_text(&mut out, "/AppData/Local");
        },
        Base::WinLocalAppDataLow => {
            push_text(&mut out, "drive_c/users/");
            push_text(&mut out, user.as_str());
            push_text(&mut out, "/AppData/LocalLow");
        },
        Base::WinSavedGames => {
            push_text(&mut out, "drive_c/users/");
            push_text(&mut out, user.as_str());
            push_text(&mut out, "/Saved Games");
        },
        Base::WinPublic => {
            push_text(&mut out, "drive_c/users/Public");
        },
        Base::WinProgramData => {
            push_text(&mut out, "drive_c/ProgramData");
        },
        Base::WinDir => {
            push_text(&mut out, "drive_c/Windows");
        },
        Base::WinHome => {
            push_text(&mut out, "drive_c/users/");
            push_text(&mut out, user.as_str());
        },
        Base::WinDrive(c) => {
            push_text(&mut out, "drive_");
            out.push(c);
        },
    }
    assert(out@ =~= wine_folder(base, user@));
    out
}

/// The path inside a Wine prefix of a path told by its known folder. A drive other than `c` is
/// followed only when the prefix has a folder for it on the disk as listed.
pub fn materialize_to_wine(semantic: &Path, prefix: &Prefix, disk: &Disk) -> (r: Option<StrictPath>)
    ensures
        match r {
            Some(p) => wine_target(*semantic, prefix.path@, prefix.wine_user@, disk@) == Some(p@),
            None => wine_target(*semantic, prefix.path@, prefix.wine_user@, disk@) is None,
        },
{
    if let Base::WinDrive(c) = semantic.base {
        if c != 'c' {
            let mut name: Vec<char> = Vec::new();
            push_text(&mut name, "drive_");
            name.push(c);
            assert(name@ =~= "drive_"@ + seq![c]);
            let drive = prefix.path.joined(string_from(&name).as_str());
            if !disk.is_dir(&drive) {
                return None;
            }
        }
    }
    let mut out = trimmed_end(prefix.path.raw().as_str());
    out.push('/');
    let mut folder = wine_folder_text(semantic.base, &prefix.wine_user);
    out.append(&mut folder);
    out.push('/');
    push_text(&mut out, semantic.tail.as_str());
    assert(out@ =~= without_trailing_slashes(prefix.path@) + seq!['/'] + wine_folder(semantic.base, prefix.wine_user@) + seq!['/']
        + semantic.tail@);
    Some(StrictPath::new(string_from(&out)))
}


/// A folder of this machine, when known, with a path below it.
pub open spec fn below(folder: Option<String>, tail: Seq<char>) -> Option<Seq<char>> {
    match folder {
        Some(f) => Some(without_trailing_slashes(f@) + seq!['/'] + tail),
        None => None,
    }
}

/// Each known folder follows its own folder of this machine, and no other: a path told by the
/// local application data lands under this machine's local application data, never under the
/// roaming one, and there is no target while that folder is unknown here. A path on a bare drive
/// letter has none.
pub proof fn each_known_folder_follows_its_own_folder(tail: String, folders: KnownFolders)
    ensures
        windows_target(Path { base: Base::WinHome, tail }, folders) == below(folders.user_profile, tail@),
        windows_target(Path { base: Base::WinDocuments, tail }, folders) == below(folders.documents, tail@),
        windows_target(Path { base: Base::WinAppData, tail }, folders) == below(folders.app_data, tail@),
        windows_target(Path { base: Base::WinLocalAppData, tail }, folders) == below(folders.local_app_data, tail@),
        windows_target(Path { base: Base::WinLocalAppDataLow, tail }, folders) == below(folders.local_low_app_data, tail@),
        windows_target(Path { base: Base::WinSavedGames, tail }, folders) == below(folders.saved_games, tail@),
        windows_target(Path { base: Base::WinPublic, tail }, folders) == below(folders.public, tail@),
        windows_target(Path { base: Base::WinProgramData, tail }, folders) == below(folders.program_data, tail@),
        windows_target(Path { base: Base::WinDir, tail }, folders) == below(folders.windows, tail@),
        forall|c: char| windows_target(Path { base: Base::WinDrive(c), tail }, folders) is None,
{
}

/// The known folders that lie in the user's own folder of a Wine prefix.
pub open spec fn is_user_folder(b: Base) -> bool {
    b == Base::WinHome || b == Base::WinDocuments || b == Base::WinAppData || b == Base::WinLocalAppData || b
        == Base::WinLocalAppDataLow || b == Base::WinSavedGames
}

spec fn suffix_len(b: Base) -> int {
    match b {
        Base::WinDocuments => 10,
        Base::WinAppData => 16,
        Base::WinLocalAppData => 14,
        Base::WinLocalAppDataLow => 17,
        Base::WinSavedGames => 12,
        _ => 0,
    }
}

/// A user folder's place below `drive_c/users/<user>` in a Wine prefix.
pub open spec fn in_wine_user(prefix: Seq<char>, user: Seq<char>, folder: Seq<char>, tail: Seq<char>) -> Option<Seq<char>> {
    Some(without_trailing_slashes(prefix) + seq!['/'] + ("drive_c/users/"@ + user + folder) + seq!['/'] + tail)
}

/// Inside a Wine prefix each known folder lands in its own folder of the prefix: the user's
/// documents, roaming and local application data, `LocalLow` and saved games under
/// `drive_c/users/<user>`, and the path's tail below it; the local application data never lands
/// in the roaming one. Two different user folders never land on the same path.
pub proof fn each_known_folder_lands_in_its_own_wine_folder(
    tail: String,
    prefix: Seq<char>,
    user: Seq<char>,
    disk: DiskView,
    one: Base,
    other: Base,
)
    ensures
        wine_target(Path { base: Base::WinHome, tail }, prefix, user, disk) == in_wine_user(prefix, user, seq![], tail@),
        wine_target(Path { base: Base::WinDocuments, tail }, prefix, user, disk) == in_wine_user(prefix, user, "/Documents"@, tail@),
        wine_target(Path { base: Base::WinAppData, tail }, prefix, user, disk) == in_wine_user(prefix, user, "/AppData/Roaming"@, tail@),
        wine_target(Path { base: Base::WinLocalAppData, tail }, prefix, user, disk) == in_wine_user(prefix, user, "/AppData/Local"@, tail@),
        wine_target(Path { base: Base::WinLocalAppDataLow, tail }, prefix, user, disk) == in_wine_user(
            prefix,
            user,
            "/AppData/LocalLow"@,
            tail@,
        ),
        wine_target(Path { base: Base::WinSavedGames, tail }, prefix, user, disk) == in_wine_user(prefix, user, "/Saved Games"@, tail@),
        is_user_folder(one) && is_user_folder(other) && one != other ==> wine_target(Path { base: one, tail }, prefix, user, disk)
            != wine_target(Path { base: other, tail }, prefix, user, disk),
{
    let t = tail@;
    let p = without_trailing_slashes(prefix);
    assert(wine_target(Path { base: Base::WinHome, tail }, prefix, user, disk) == in_wine_user(prefix, user, seq![], t)) by {
        assert("drive_c/users/"@ + user + Seq::<char>::empty() =~= "drive_c/users/"@ + user);
    }
    reveal_strlit("drive_c/users/");
    reveal_strlit("/Documents");
    reveal_strlit("/AppData/Roaming");
    reveal_strlit("/AppData/Local");
    reveal_strlit("/AppData/LocalLow");
    reveal_strlit("/Saved Games");
    assert forall|b: Base| #[trigger] is_user_folder(b) implies wine_target(Path { base: b, tail }, prefix, user, disk)->0.len()
        == p.len() + 1 + 14 + user.len() + suffix_len(b) + 1 + t.len() by {
    }
}

} // verus!
