//! Emulators as first-class citizens.
//!
//! An emulator keeps the user's progress in a data folder of its own, whose absolute path changes
//! from machine to machine: installed, portable, an old version of the emulator, another system.
//! That is the same problem as a Wine prefix, so this module is a second instance of the pattern
//! that [`crate::scan::semantic`] solves for Wine: an abstract anchor (the emulator and the area)
//! plus a stable relative path.
//!
//! Everything specific to each emulator lives here as **data**, in [`Profile`]. Adding an emulator
//! is adding a literal, not writing new logic.
//!
//! The engine never touches the disk itself: it reads a [`Disk`], the listing that the caller took
//! of the folders in question, so that every decision below is a function of what was on disk.
use vstd::prelude::*;

use crate::path::{components, join, same_place, tail_under, StrictPath};

pub mod duckstation_state;
pub mod le;
pub mod param_sfo;
pub mod ps2_card;
pub mod psx_card;
pub mod text;

verus! {

/// A known emulator.
#[derive(Clone, Copy, Debug, PartialEq, Eq, Structural, Ord, PartialOrd, Hash)]
pub enum App {
    Ppsspp,
    DuckStation,
    Pcsx2,
    Rpcs3,
    ShadPs4,
    Sudachi,
    Eden,
    Xenia,
}

/// A declared area of user data inside the emulator's data folder.
///
/// The area exists, and not only the data folder, because one game keeps kinds of files in
/// different places, and because the user can relocate a single area in the emulator's settings.
/// It is what lets trophies be restored apart from save data.
#[derive(Clone, Copy, Debug, PartialEq, Eq, Structural, Ord, PartialOrd, Hash)]
pub enum Area {
    /// Memory cards, which are the real progress.
    Memcards,
    /// Save states, which are large and tied to the emulator's build.
    Savestates,
    /// Save data of consoles that keep one folder per save.
    Saves,
    /// Trophies the user earned.
    Trophies,
}

/// A folder of the user's account that an emulator's default location hangs from.
#[derive(Clone, Copy, Debug, PartialEq, Eq, Structural)]
pub enum CommonPath {
    /// Roaming application data (`%APPDATA%`).
    Data,
    /// Local application data (`%LOCALAPPDATA%`).
    DataLocal,
    /// The user's documents.
    Document,
}

/// Where the common folders are on this machine, as the caller found them.
#[derive(Clone, Debug, Default)]
pub struct CommonPaths {
    pub data: Option<String>,
    pub data_local: Option<String>,
    pub document: Option<String>,
}

pub open spec fn common_path_of(base: CommonPath, paths: CommonPaths) -> Option<Seq<char>> {
    match base {
        CommonPath::Data => text::opt_view(paths.data),
        CommonPath::DataLocal => text::opt_view(paths.data_local),
        CommonPath::Document => text::opt_view(paths.document),
    }
}

impl CommonPath {
    /// This folder on this machine, when it is known.
    pub fn get(&self, paths: &CommonPaths) -> (r: Option<String>)
        ensures
            text::opt_view(r) == common_path_of(*self, *paths),
    {
        match self {
            CommonPath::Data => paths.data.clone(),
            CommonPath::DataLocal => paths.data_local.clone(),
            CommonPath::Document => paths.document.clone(),
        }
    }
}

/// A default place to look for the data folder.
#[derive(Clone, Copy, Debug)]
pub enum Anchor {
    /// A subfolder of a known folder of the system.
    Common(CommonPath, &'static str),
}

pub open spec fn anchor_place(anchor: Anchor, paths: CommonPaths) -> Option<Seq<char>> {
    match anchor {
        Anchor::Common(base, sub) => match common_path_of(base, paths) {
            Some(b) => Some(join(b, sub@)),
            None => None,
        },
    }
}

impl Anchor {
    fn resolve(&self, paths: &CommonPaths) -> (r: Option<StrictPath>)
        ensures
            match r {
                Some(p) => anchor_place(*self, *paths) == Some(p@),
                None => anchor_place(*self, *paths) is None,
            },
    {
        match self {
            Anchor::Common(base, sub) => match base.get(paths) {
                Some(b) => Some(StrictPath::new(b).joined(sub)),
                None => None,
            },
        }
    }
}

/// What a listing says is at a path.
#[derive(Clone, Copy, Debug, PartialEq, Eq, Structural)]
pub enum EntryKind {
    Dir,
    File,
}

/// One thing found on disk.
#[derive(Clone, Debug)]
pub struct DiskEntry {
    pub path: StrictPath,
    pub kind: EntryKind,
    /// The file's bytes, for the files whose contents identify a game. `None` when they were not
    /// read or could not be.
    pub contents: Option<Vec<u8>>,
}

pub open spec fn bytes_view(b: Option<Vec<u8>>) -> Option<Seq<u8>> {
    match b {
        Some(v) => Some(v@),
        None => None,
    }
}

impl View for DiskEntry {
    type V = (Seq<char>, EntryKind, Option<Seq<u8>>);

    open spec fn view(&self) -> Self::V {
        (self.path@, self.kind, bytes_view(self.contents))
    }
}

/// The folders and files that the caller listed: what the engine knows of the disk.
#[derive(Clone, Debug, Default)]
pub struct Disk {
    pub entries: Vec<DiskEntry>,
}

impl View for Disk {
    type V = Seq<(Seq<char>, EntryKind, Option<Seq<u8>>)>;

    open spec fn view(&self) -> Self::V {
        self.entries@.map_values(|e: DiskEntry| e@)
    }
}

/// The listing holds something of this kind at this place.
pub open spec fn has_entry(disk: Seq<(Seq<char>, EntryKind, Option<Seq<u8>>)>, place: Seq<char>, kind: EntryKind) -> bool {
    exists|i: int| 0 <= i < disk.len() && #[trigger] disk[i].1 == kind && same_place(disk[i].0, place)
}

impl Disk {
    fn holds(&self, place: &StrictPath, kind: EntryKind) -> (r: bool)
        ensures
            r == has_entry(self@, place@, kind),
    {
        let mut i: usize = 0;
        while i < self.entries.len()
            invariant
                i <= self.entries.len(),
                forall|k: int| 0 <= k < i ==> !(#[trigger] self@[k].1 == kind && same_place(self@[k].0, place@)),
            decreases self.entries.len() - i,
        {
            let e = &self.entries[i];
            assert(self@[i as int] == e@);
            if e.kind == kind && e.path.equivalent(place) {
                assert(self@[i as int].1 == kind && same_place(self@[i as int].0, place@));
                return true;
            }
            i = i + 1;
        }
        false
    }

    /// There is a folder at this place.
    pub fn is_dir(&self, place: &StrictPath) -> (r: bool)
        ensures
            r == has_entry(self@, place@, EntryKind::Dir),
    {
        self.holds(place, EntryKind::Dir)
    }

    /// There is a file at this place.
    pub fn is_file(&self, place: &StrictPath) -> (r: bool)
        ensures
            r == has_entry(self@, place@, EntryKind::File),
    {
        self.holds(place, EntryKind::File)
    }
}

/// A mark used to recognise an emulator's data folder.
#[derive(Clone, Copy, Debug)]
pub enum Marker {
    Dir(&'static str),
    File(&'static str),
}

pub open spec fn marker_present(marker: Marker, data_root: Seq<char>, disk: Seq<(Seq<char>, EntryKind, Option<Seq<u8>>)>) -> bool {
    match marker {
        Marker::Dir(name) => has_entry(disk, join(data_root, name@), EntryKind::Dir),
        Marker::File(name) => has_entry(disk, join(data_root, name@), EntryKind::File),
    }
}

impl Marker {
    fn present_in(&self, data_root: &StrictPath, disk: &Disk) -> (r: bool)
        ensures
            r == marker_present(*self, data_root@, disk@),
    {
        match self {
            Marker::Dir(name) => disk.is_dir(&data_root.joined(name)),
            Marker::File(name) => disk.is_file(&data_root.joined(name)),
        }
    }
}

/// How to recognise that a folder is this emulator's data folder.
///
/// Emulators share subfolder names (`memcards` exists in DuckStation and in PCSX2), so a single
/// mark is not enough to tell one from the other, and some need a mark that must be absent.
#[derive(Clone, Debug)]
pub struct Signature {
    /// All of these must be present.
    pub all_of: Vec<Marker>,
    /// At least one of these must be present. Empty means "nothing to require".
    pub any_of: Vec<Marker>,
    /// None of these may be present.
    pub none_of: Vec<Marker>,
}

impl View for Signature {
    type V = (Seq<Marker>, Seq<Marker>, Seq<Marker>);

    open spec fn view(&self) -> Self::V {
        (self.all_of@, self.any_of@, self.none_of@)
    }
}

/// The folder carries the signature. A signature with no mark that must be present recognises
/// nothing: an empty list of requirements would take any folder for this emulator.
pub open spec fn signature_matches(
    sig: (Seq<Marker>, Seq<Marker>, Seq<Marker>),
    data_root: Seq<char>,
    disk: Seq<(Seq<char>, EntryKind, Option<Seq<u8>>)>,
) -> bool {
    &&& has_entry(disk, data_root, EntryKind::Dir)
    &&& (sig.0.len() > 0 || sig.1.len() > 0)
    &&& forall|k: int| 0 <= k < sig.0.len() ==> marker_present(#[trigger] sig.0[k], data_root, disk)
    &&& (sig.1.len() == 0 || exists|k: int| 0 <= k < sig.1.len() && marker_present(#[trigger] sig.1[k], data_root, disk))
    &&& forall|k: int| 0 <= k < sig.2.len() ==> !marker_present(#[trigger] sig.2[k], data_root, disk)
}

fn all_present(markers: &Vec<Marker>, data_root: &StrictPath, disk: &Disk) -> (r: bool)
    ensures
        r == forall|k: int| 0 <= k < markers@.len() ==> marker_present(#[trigger] markers@[k], data_root@, disk@),
{
    let mut i: usize = 0;
    while i < markers.len()
        invariant
            i <= markers.len(),
            forall|k: int| 0 <= k < i ==> marker_present(#[trigger] markers@[k], data_root@, disk@),
        decreases markers.len() - i,
    {
        if !markers[i].present_in(data_root, disk) {
            return false;
        }
        i = i + 1;
    }
    true
}

fn any_present(markers: &Vec<Marker>, data_root: &StrictPath, disk: &Disk) -> (r: bool)
    ensures
        r == exists|k: int| 0 <= k < markers@.len() && marker_present(#[trigger] markers@[k], data_root@, disk@),
{
    let mut i: usize = 0;
    while i < markers.len()
        invariant
            i <= markers.len(),
            forall|k: int| 0 <= k < i ==> !marker_present(#[trigger] markers@[k], data_root@, disk@),
        decreases markers.len() - i,
    {
        if markers[i].present_in(data_root, disk) {
            return true;
        }
        i = i + 1;
    }
    false
}

impl Signature {
    fn matches(&self, data_root: &StrictPath, disk: &Disk) -> (r: bool)
        ensures
            r == signature_matches(self@, data_root@, disk@),
    {
        if !disk.is_dir(data_root) {
            return false;
        }
        if self.all_of.len() == 0 && self.any_of.len() == 0 {
            return false;
        }
        let all = all_present(&self.all_of, data_root, disk);
        let any = self.any_of.len() == 0 || any_present(&self.any_of, data_root, disk);
        let forbidden = any_present(&self.none_of, data_root, disk);
        proof {
            let sig = self@;
            assert(sig.0 == self.all_of@ && sig.1 == self.any_of@ && sig.2 == self.none_of@);
            if !forbidden {
                assert forall|k: int| 0 <= k < sig.2.len() implies !marker_present(#[trigger] sig.2[k], data_root@, disk@) by {
                    if marker_present(sig.2[k], data_root@, disk@) {
                        assert(self.none_of@[k] == sig.2[k]);
                    }
                }
            }
        }
        all && any && !forbidden
    }
}

/// Where a game's identity comes from, for the files of an area.
#[derive(Clone, Copy, Debug, PartialEq, Eq, Structural)]
pub enum Identity {
    /// From inside the file, reading the PlayStation memory card format.
    ///
    /// It is sturdier than the file name: it works even when the emulator names the card after
    /// the game's title instead of its media code, and on a shared card it sees each game apart.
    PsxCard,
    /// From the media code in the file name.
    FilenameMediaCode,
}

/// An area of the data folder.
#[derive(Clone, Debug)]
pub struct AreaSpec {
    pub area: Area,
    /// Subfolder, relative to the data folder.
    pub subdir: &'static str,
    /// Extensions of the files of interest, without the dot.
    pub extensions: Vec<&'static str>,
    pub identity: Identity,
}

#[verifier::ext_equal]
pub struct AreaSpecView {
    pub area: Area,
    pub subdir: &'static str,
    pub extensions: Seq<&'static str>,
    pub identity: Identity,
}

impl View for AreaSpec {
    type V = AreaSpecView;

    open spec fn view(&self) -> AreaSpecView {
        AreaSpecView { area: self.area, subdir: self.subdir, extensions: self.extensions@, identity: self.identity }
    }
}

/// Everything known about an emulator. It is data, not logic.
#[derive(Clone, Debug)]
pub struct Profile {
    /// Proper name, not translated. It shows in the game's key and in the filter by emulator.
    pub name: &'static str,
    /// Default places of the data folder, in order of priority.
    pub data_roots: Vec<Anchor>,
    /// File that, next to the executable, marks a portable install. Then the data folder is the
    /// executable's own folder.
    pub portable_marker: Option<&'static str>,
    pub signature: Signature,
    pub areas: Vec<AreaSpec>,
}

#[verifier::ext_equal]
pub struct ProfileView {
    pub name: &'static str,
    pub data_roots: Seq<Anchor>,
    pub portable_marker: Option<&'static str>,
    pub signature: (Seq<Marker>, Seq<Marker>, Seq<Marker>),
    pub areas: Seq<AreaSpecView>,
}

impl View for Profile {
    type V = ProfileView;

    open spec fn view(&self) -> ProfileView {
        ProfileView {
            name: self.name,
            data_roots: self.data_roots@,
            portable_marker: self.portable_marker,
            signature: self.signature@,
            areas: self.areas@.map_values(|a: AreaSpec| a@),
        }
    }
}

/// The emulators in the order the screens list them.
pub open spec fn all_apps() -> Seq<App> {
    seq![App::Ppsspp, App::DuckStation, App::Pcsx2, App::Rpcs3, App::ShadPs4, App::Sudachi, App::Eden, App::Xenia]
}

/// Where an emulator stands among the others: its place in [`all_apps`], the order in which
/// they are declared.
pub open spec fn app_rank(app: App) -> int {
    match app {
        App::Ppsspp => 0,
        App::DuckStation => 1,
        App::Pcsx2 => 2,
        App::Rpcs3 => 3,
        App::ShadPs4 => 4,
        App::Sudachi => 5,
        App::Eden => 6,
        App::Xenia => 7,
    }
}

/// A profile that recognises no folder and declares no area: the layout of these emulators is not
/// described here, so the user points at the folder and nothing is guessed.
pub open spec fn bare_profile(name: &'static str, data_roots: Seq<Anchor>) -> ProfileView {
    ProfileView {
        name,
        data_roots,
        portable_marker: None,
        signature: (seq![], seq![], seq![]),
        areas: seq![],
    }
}

pub open spec fn app_profile(app: App) -> ProfileView {
    match app {
        // DuckStation uses %LOCALAPPDATA%\DuckStation; old installs use Documents\DuckStation.
        // `memcards` alone does not tell it from PCSX2, hence the second mark; and a portable
        // PCSX2 folder has `memcards` and `portable.txt` too, hence the mark that must be absent.
        App::DuckStation => ProfileView {
            name: "DuckStation",
            data_roots: seq![
                Anchor::Common(CommonPath::DataLocal, "DuckStation"),
                Anchor::Common(CommonPath::Document, "DuckStation"),
            ],
            portable_marker: Some("portable.txt"),
            signature: (
                seq![Marker::Dir("memcards")],
                seq![Marker::File("settings.ini"), Marker::File("portable.txt")],
                seq![Marker::Dir("inis")],
            ),
            areas: seq![
                AreaSpecView {
                    area: Area::Memcards,
                    subdir: "memcards",
                    extensions: seq!["mcd", "mcr"],
                    identity: Identity::PsxCard,
                },
                AreaSpecView {
                    area: Area::Savestates,
                    subdir: "savestates",
                    extensions: seq!["sav"],
                    identity: Identity::FilenameMediaCode,
                },
            ],
        },
        // PCSX2 keeps its data in Documents\PCSX2 and recognises a portable install by
        // `portable.ini`. The signature points at the install (`inis`, where its settings live),
        // never at the user's data, which is exactly what is missing when a restore is needed.
        // The default card name (`Mcd001.ps2`) carries no media code, so such a card is kept by
        // its name; one named after the media code is identified by it.
        App::Pcsx2 => ProfileView {
            name: "PCSX2",
            data_roots: seq![Anchor::Common(CommonPath::Document, "PCSX2")],
            portable_marker: Some("portable.ini"),
            signature: (seq![Marker::Dir("inis")], seq![], seq![]),
            areas: seq![
                AreaSpecView {
                    area: Area::Memcards,
                    subdir: "memcards",
                    extensions: seq!["ps2"],
                    identity: Identity::FilenameMediaCode,
                },
                AreaSpecView {
                    area: Area::Savestates,
                    subdir: "sstates",
                    extensions: seq!["p2s"],
                    identity: Identity::FilenameMediaCode,
                },
            ],
        },
        App::Ppsspp => bare_profile("PPSSPP", seq![]),
        App::Rpcs3 => bare_profile("RPCS3", seq![]),
        App::ShadPs4 => bare_profile("shadPS4", seq![]),
        App::Sudachi => bare_profile("Sudachi", seq![]),
        App::Eden => bare_profile("Eden", seq![Anchor::Common(CommonPath::Data, "eden")]),
        // Xenia keeps every title's data under `content`, and a folder that has run it also has
        // `cache` or its settings file. Its areas are folders per title and per kind of content,
        // which this engine does not list, so it declares none.
        App::Xenia => ProfileView {
            name: "Xenia",
            data_roots: seq![],
            portable_marker: None,
            signature: (
                seq![Marker::Dir("content")],
                seq![Marker::Dir("cache"), Marker::File("xenia.config.toml")],
                seq![],
            ),
            areas: seq![],
        },
    }
}

pub open spec fn app_name(app: App) -> Seq<char> {
    app_profile(app).name@
}

pub open spec fn recognises(app: App, data_root: Seq<char>, disk: Seq<(Seq<char>, EntryKind, Option<Seq<u8>>)>) -> bool {
    signature_matches(app_profile(app).signature, data_root, disk)
}

/// The emulators among the first `n` of [`all_apps`] that recognise the folder.
pub open spec fn recognising(n: int, data_root: Seq<char>, disk: Seq<(Seq<char>, EntryKind, Option<Seq<u8>>)>) -> Seq<App>
    decreases n,
{
    if n <= 0 {
        seq![]
    } else {
        let before = recognising(n - 1, data_root, disk);
        if recognises(all_apps()[n - 1], data_root, disk) {
            before.push(all_apps()[n - 1])
        } else {
            before
        }
    }
}

/// The defaults of this machine that hold this emulator's data, from the first `n` anchors.
pub open spec fn installed_roots(app: App, n: int, paths: CommonPaths, disk: Seq<(Seq<char>, EntryKind, Option<Seq<u8>>)>) -> Seq<Seq<char>>
    decreases n,
{
    if n <= 0 {
        seq![]
    } else {
        let before = installed_roots(app, n - 1, paths, disk);
        match anchor_place(app_profile(app).data_roots[n - 1], paths) {
            Some(p) => if recognises(app, p, disk) { before.push(p) } else { before },
            None => before,
        }
    }
}

fn bare(name: &'static str, data_roots: Vec<Anchor>) -> (p: Profile)
    ensures
        p@ == bare_profile(name, data_roots@),
{
    let p = Profile {
        name,
        data_roots,
        portable_marker: None,
        signature: Signature { all_of: Vec::new(), any_of: Vec::new(), none_of: Vec::new() },
        areas: Vec::new(),
    };
    assert(p@.areas == Seq::<AreaSpecView>::empty());
    p
}

fn duckstation() -> (p: Profile)
    ensures
        p@ == app_profile(App::DuckStation),
{
    let memcards = AreaSpec {
        area: Area::Memcards,
        subdir: "memcards",
        extensions: vec!["mcd", "mcr"],
        identity: Identity::PsxCard,
    };
    let savestates = AreaSpec {
        area: Area::Savestates,
        subdir: "savestates",
        extensions: vec!["sav"],
        identity: Identity::FilenameMediaCode,
    };
    let p = Profile {
        name: "DuckStation",
        data_roots: vec![
            Anchor::Common(CommonPath::DataLocal, "DuckStation"),
            Anchor::Common(CommonPath::Document, "DuckStation"),
        ],
        portable_marker: Some("portable.txt"),
        signature: Signature {
            all_of: vec![Marker::Dir("memcards")],
            any_of: vec![Marker::File("settings.ini"), Marker::File("portable.txt")],
            none_of: vec![Marker::Dir("inis")],
        },
        areas: vec![memcards, savestates],
    };
    let ghost want = app_profile(App::DuckStation);
    assert(memcards@ =~= want.areas[0]);
    assert(savestates@ =~= want.areas[1]);
    assert(p@.areas =~= want.areas);
    assert(p@.data_roots =~= want.data_roots);
    assert(p.signature.all_of@ =~= want.signature.0);
    assert(p.signature.any_of@ =~= want.signature.1);
    assert(p.signature.none_of@ =~= want.signature.2);
    assert(p@ =~= want);
    p
}

fn pcsx2() -> (p: Profile)
    ensures
        p@ == app_profile(App::Pcsx2),
{
    let memcards = AreaSpec {
        area: Area::Memcards,
        subdir: "memcards",
        extensions: vec!["ps2"],
        identity: Identity::FilenameMediaCode,
    };
    let savestates = AreaSpec {
        area: Area::Savestates,
        subdir: "sstates",
        extensions: vec!["p2s"],
        identity: Identity::FilenameMediaCode,
    };
    let p = Profile {
        name: "PCSX2",
        data_roots: vec![Anchor::Common(CommonPath::Document, "PCSX2")],
        portable_marker: Some("portable.ini"),
        signature: Signature { all_of: vec![Marker::Dir("inis")], any_of: Vec::new(), none_of: Vec::new() },
        areas: vec![memcards, savestates],
    };
    let ghost want = app_profile(App::Pcsx2);
    assert(memcards@ =~= want.areas[0]);
    assert(savestates@ =~= want.areas[1]);
    assert(p@.areas =~= want.areas);
    assert(p@.data_roots =~= want.data_roots);
    assert(p.signature.all_of@ =~= want.signature.0);
    assert(p.signature.any_of@ =~= want.signature.1);
    assert(p.signature.none_of@ =~= want.signature.2);
    assert(p@ =~= want);
    p
}

fn xenia() -> (p: Profile)
    ensures
        p@ == app_profile(App::Xenia),
{
    let p = Profile {
        name: "Xenia",
        data_roots: Vec::new(),
        portable_marker: None,
        signature: Signature {
            all_of: vec![Marker::Dir("content")],
            any_of: vec![Marker::Dir("cache"), Marker::File("xenia.config.toml")],
            none_of: Vec::new(),
        },
        areas: Vec::new(),
    };
    let ghost want = app_profile(App::Xenia);
    assert(p@.areas =~= want.areas);
    assert(p@.data_roots =~= want.data_roots);
    assert(p.signature.all_of@ =~= want.signature.0);
    assert(p.signature.any_of@ =~= want.signature.1);
    assert(p.signature.none_of@ =~= want.signature.2);
    assert(p@ =~= want);
    p
}

impl App {
    /// Where this emulator stands among the others.
    pub(crate) fn rank(&self) -> (r: u8)
        ensures
            r == app_rank(*self),
    {
        match self {
            App::Ppsspp => 0,
            App::DuckStation => 1,
            App::Pcsx2 => 2,
            App::Rpcs3 => 3,
            App::ShadPs4 => 4,
            App::Sudachi => 5,
            App::Eden => 6,
            App::Xenia => 7,
        }
    }

    /// Every known emulator.
    pub const ALL: [App; 8] = [
        App::Ppsspp,
        App::DuckStation,
        App::Pcsx2,
        App::Rpcs3,
        App::ShadPs4,
        App::Sudachi,
        App::Eden,
        App::Xenia,
    ];

    /// Emulators announced and not yet supported. The scope closed, so there are none.
    pub const PLANNED: [App; 0] = [];

    pub fn profile(&self) -> (r: Profile)
        ensures
            r@ == app_profile(*self),
    {
        match self {
            App::DuckStation => duckstation(),
            App::Pcsx2 => pcsx2(),
            App::Ppsspp => bare("PPSSPP", Vec::new()),
            App::Rpcs3 => bare("RPCS3", Vec::new()),
            App::ShadPs4 => bare("shadPS4", Vec::new()),
            App::Sudachi => bare("Sudachi", Vec::new()),
            App::Eden => bare("Eden", vec![Anchor::Common(CommonPath::Data, "eden")]),
            App::Xenia => xenia(),
        }
    }

    pub fn name(&self) -> (r: &'static str)
        ensures
            r@ == app_name(*self),
    {
        match self {
            App::Ppsspp => "PPSSPP",
            App::DuckStation => "DuckStation",
            App::Pcsx2 => "PCSX2",
            App::Rpcs3 => "RPCS3",
            App::ShadPs4 => "shadPS4",
            App::Sudachi => "Sudachi",
            App::Eden => "Eden",
            App::Xenia => "Xenia",
        }
    }

    /// Is this folder this emulator's data folder?
    pub fn matches_data_root(&self, data_root: &StrictPath, disk: &Disk) -> (r: bool)
        ensures
            r == recognises(*self, data_root@, disk@),
    {
        self.profile().signature.matches(data_root, disk)
    }

    /// Which emulator this folder is, if any.
    ///
    /// Returns `None` when none recognises it **and also** when more than one does, because
    /// choosing on a tie would be guessing with the user's data.
    pub fn detect(data_root: &StrictPath, disk: &Disk) -> (r: Option<App>)
        ensures
            match r {
                Some(app) => recognising(8, data_root@, disk@) == seq![app],
                None => recognising(8, data_root@, disk@).len() != 1,
            },
    {
        let ghost root = data_root@;
        let ghost d = disk@;
        let mut found: Option<App> = None;
        let mut count: usize = 0;
        let mut i: usize = 0;
        while i < 8
            invariant
                i <= 8,
                root == data_root@,
                d == disk@,
                count == recognising(i as int, root, d).len(),
                count <= i,
                count == 1 ==> (found matches Some(a) && recognising(i as int, root, d) == seq![a]),
            decreases 8 - i,
        {
            let app = App::ALL[i];
            assert(app == all_apps()[i as int]);
            if app.matches_data_root(data_root, disk) {
                if count == 0 {
                    found = Some(app);
                    assert(recognising(i + 1, root, d) =~= seq![app]);
                }
                count = count + 1;
            }
            i = i + 1;
        }
        if count == 1 {
            found
        } else {
            None
        }
    }

    /// The data folder of an install the user pointed at.
    ///
    /// It takes the data folder itself, which for a portable install is the executable's folder.
    pub fn data_root_at(&self, path: &StrictPath, disk: &Disk) -> (r: Option<StrictPath>)
        ensures
            match r {
                Some(p) => p@ == path@ && recognises(*self, path@, disk@),
                None => !recognises(*self, path@, disk@),
            },
    {
        if self.matches_data_root(path, disk) {
            Some(path.clone())
        } else {
            None
        }
    }

    /// Default places of this machine that do hold this emulator's data.
    pub fn installed_data_roots(&self, paths: &CommonPaths, disk: &Disk) -> (r: Vec<StrictPath>)
        ensures
            r@.map_values(|p: StrictPath| p@) == installed_roots(*self, app_profile(*self).data_roots.len() as int, *paths, disk@),
    {
        let profile = self.profile();
        let mut out: Vec<StrictPath> = Vec::new();
        let mut i: usize = 0;
        while i < profile.data_roots.len()
            invariant
                i <= profile.data_roots.len(),
                profile@ == app_profile(*self),
                out@.map_values(|p: StrictPath| p@) == installed_roots(*self, i as int, *paths, disk@),
            decreases profile.data_roots.len() - i,
        {
            let ghost before = out@.map_values(|p: StrictPath| p@);
            match profile.data_roots[i].resolve(paths) {
                Some(candidate) => {
                    if self.matches_data_root(&candidate, disk) {
                        let ghost c = candidate@;
                        out.push(candidate);
                        assert(out@.map_values(|p: StrictPath| p@) =~= before.push(c));
                    }
                },
                None => {},
            }
            i = i + 1;
        }
        out
    }
}

/// A game's identity within an emulator, as the specifications see it.
pub enum GameIdView {
    Media(Seq<char>),
    SharedCard,
    Unidentified(Seq<char>),
}

/// A game's identity within an emulator.
#[derive(Clone, Debug, Eq, PartialEq, Ord, PartialOrd, Hash)]
pub enum GameId {
    /// Media code, for example `SLUS-00067`. It is the stable identity.
    Media(String),
    /// A memory card holding saves of more than one game. The file cannot be split, so it is a
    /// single "game", and it cannot be attached to each game that lives inside it.
    SharedCard,
    /// A file that could not be identified. Kept by its name, never dropped in silence.
    Unidentified(String),
}

impl View for GameId {
    type V = GameIdView;

    open spec fn view(&self) -> GameIdView {
        match self {
            GameId::Media(code) => GameIdView::Media(code@),
            GameId::SharedCard => GameIdView::SharedCard,
            GameId::Unidentified(label) => GameIdView::Unidentified(label@),
        }
    }
}

/// The game's key in the manifest, which is also the name of its backup folder.
pub open spec fn game_key_of(id: GameIdView, app: App) -> Seq<char> {
    match id {
        GameIdView::Media(code) => app_name(app) + seq![' '] + code,
        GameIdView::SharedCard => app_name(app) + " shared memory cards"@,
        GameIdView::Unidentified(label) => app_name(app) + seq![' '] + label,
    }
}

fn concat(a: &str, b: &str) -> (r: String)
    ensures
        r@ == a@ + b@,
{
    let mut v = text::chars_of(a);
    let mut w = text::chars_of(b);
    v.append(&mut w);
    text::string_from(&v)
}

impl GameId {
    /// The game's key in the manifest, which is also the name of its backup folder.
    ///
    /// It is born from the identity and **never** from the title, because the key has to be the
    /// same on every machine and in every run: if it depended on the title having been read, a
    /// failed read would create a second backup folder for the same game.
    pub fn game_key(&self, app: App) -> (r: String)
        ensures
            r@ == game_key_of(self@, app),
    {
        let name = app.name();
        proof {
            reveal_strlit(" ");
        }
        match self {
            GameId::Media(code) => concat(concat(name, " ").as_str(), code.as_str()),
            GameId::SharedCard => concat(name, " shared memory cards"),
            GameId::Unidentified(label) => concat(concat(name, " ").as_str(), label.as_str()),
        }
    }
}

/// A save file found, already attributed to a game, as the specifications see it.
pub struct SaveView {
    pub app: App,
    pub area: Area,
    pub area_root: Seq<char>,
    pub game: GameIdView,
    pub title: Option<Seq<char>>,
    pub file: Seq<char>,
}

/// A save file found, already attributed to a game.
#[derive(Clone, Debug, Eq, PartialEq)]
pub struct DiscoveredSave {
    pub app: App,
    pub area: Area,
    /// The area's folder, which is the anchor recorded in the backup.
    pub area_root: StrictPath,
    pub game: GameId,
    /// Title for display, when the save itself carries one.
    pub title: Option<String>,
    pub file: StrictPath,
}

impl View for DiscoveredSave {
    type V = SaveView;

    open spec fn view(&self) -> SaveView {
        SaveView {
            app: self.app,
            area: self.area,
            area_root: self.area_root@,
            game: self.game@,
            title: text::opt_view(self.title),
            file: self.file@,
        }
    }
}

/// A path as rendered, with `/` as its only separator.
pub open spec fn render_of(file: Seq<char>) -> Seq<char> {
    file.map_values(|c: char| crate::path::forward(c))
}

/// What follows the last separator.
pub open spec fn leaf(s: Seq<char>) -> Seq<char>
    decreases s.len(),
{
    if s.len() == 0 {
        s
    } else if crate::path::is_sep(s.last()) {
        seq![]
    } else {
        leaf(s.drop_last()).push(s.last())
    }
}

/// Where the last `.` is, or -1.
pub open spec fn last_dot(s: Seq<char>) -> int
    decreases s.len(),
{
    if s.len() == 0 {
        -1
    } else if s.last() == '.' {
        s.len() - 1
    } else {
        last_dot(s.drop_last())
    }
}

/// A file name without its extension, unless nothing would be left of it.
pub open spec fn stem_of(name: Seq<char>) -> Seq<char> {
    if last_dot(name) > 0 {
        name.take(last_dot(name))
    } else {
        name
    }
}

pub open spec fn file_stem_of(file: Seq<char>) -> Seq<char> {
    stem_of(leaf(render_of(file)))
}

fn file_stem(file: &StrictPath) -> (r: String)
    ensures
        r@ == file_stem_of(file@),
{
    let rendered = text::chars_of(file.render().as_str());
    let ghost s = rendered@;
    let mut start: usize = 0;
    let mut i: usize = 0;
    assert(s.take(0) =~= Seq::<char>::empty());
    while i < rendered.len()
        invariant
            i <= rendered.len(),
            s == rendered@,
            start <= i,
            leaf(s.take(i as int)) == s.subrange(start as int, i as int),
        decreases rendered.len() - i,
    {
        assert(s.take(i + 1).drop_last() == s.take(i as int));
        if rendered[i] == '/' || rendered[i] == '\\' {
            start = i + 1;
        }
        i = i + 1;
        assert(leaf(s.take(i as int)) =~= s.subrange(start as int, i as int));
    }
    assert(s.take(i as int) == s);
    let mut name: Vec<char> = Vec::new();
    let mut j: usize = start;
    while j < rendered.len()
        invariant
            start <= j <= rendered.len(),
            s == rendered@,
            name@ == s.subrange(start as int, j as int),
        decreases rendered.len() - j,
    {
        name.push(rendered[j]);
        j = j + 1;
        assert(name@ =~= s.subrange(start as int, j as int));
    }
    let ghost n = name@;
    let mut dot: usize = 0;
    let mut seen = false;
    let mut k: usize = 0;
    assert(n.take(0) =~= Seq::<char>::empty());
    while k < name.len()
        invariant
            k <= name.len(),
            n == name@,
            seen ==> dot < k && last_dot(n.take(k as int)) == dot,
            !seen ==> last_dot(n.take(k as int)) == -1,
        decreases name.len() - k,
    {
        assert(n.take(k + 1).drop_last() == n.take(k as int));
        if name[k] == '.' {
            dot = k;
            seen = true;
        }
        k = k + 1;
    }
    assert(n.take(k as int) == n);
    if seen && dot > 0 {
        let mut stem: Vec<char> = Vec::new();
        let mut m: usize = 0;
        while m < dot
            invariant
                m <= dot < name.len(),
                n == name@,
                stem@ == n.take(m as int),
            decreases dot - m,
        {
            stem.push(name[m]);
            m = m + 1;
            assert(stem@ =~= n.take(m as int));
        }
        text::string_from(&stem)
    } else {
        text::string_from(&name)
    }
}

pub open spec fn ends_with(s: Seq<char>, t: Seq<char>) -> bool {
    t.len() <= s.len() && s.subrange(s.len() - t.len(), s.len() as int) == t
}

fn chars_end_with(s: &Vec<char>, t: &Vec<char>) -> (r: bool)
    ensures
        r == ends_with(s@, t@),
{
    if t.len() > s.len() {
        return false;
    }
    let off = s.len() - t.len();
    let mut i: usize = 0;
    while i < t.len()
        invariant
            off == s.len() - t.len(),
            i <= t.len(),
            forall|k: int| 0 <= k < i ==> s@[off + k] == t@[k],
        decreases t.len() - i,
    {
        if s[off + i] != t[i] {
            assert(s@.subrange(off as int, s.len() as int)[i as int] != t@[i as int]);
            return false;
        }
        i = i + 1;
    }
    assert(s@.subrange(off as int, s.len() as int) =~= t@);
    true
}

/// The file's rendered path, lowercased, ends with one of the extensions, lowercased, after a dot.
pub open spec fn has_ext(file: Seq<char>, extensions: Seq<&'static str>) -> bool {
    exists|k: int|
        0 <= k < extensions.len() && ends_with(
            text::unicode_lowercase(render_of(file)),
            seq!['.'] + text::unicode_lowercase((#[trigger] extensions[k])@),
        )
}

fn has_extension(file: &StrictPath, extensions: &Vec<&'static str>) -> (r: bool)
    ensures
        r == has_ext(file@, extensions@),
{
    let rendered = file.render();
    let lowered = text::chars_of(text::lowercase(rendered.as_str()).as_str());
    let mut i: usize = 0;
    while i < extensions.len()
        invariant
            i <= extensions.len(),
            lowered@ == text::unicode_lowercase(render_of(file@)),
            forall|k: int|
                0 <= k < i ==> !ends_with(
                    text::unicode_lowercase(render_of(file@)),
                    seq!['.'] + text::unicode_lowercase((#[trigger] extensions@[k])@),
                ),
        decreases extensions.len() - i,
    {
        let mut wanted: Vec<char> = vec!['.'];
        let mut ext = text::chars_of(text::lowercase(extensions[i]).as_str());
        let ghost e = extensions@[i as int];
        assert(e == extensions[i as int]);
        wanted.append(&mut ext);
        assert(wanted@ =~= seq!['.'] + text::unicode_lowercase(e@));
        if chars_end_with(&lowered, &wanted) {
            assert(ends_with(text::unicode_lowercase(render_of(file@)), seq!['.'] + text::unicode_lowercase(extensions@[i as int]@)));
            return true;
        }
        i = i + 1;
    }
    false
}

pub type CardEntryView = (usize, Seq<char>, Option<Seq<char>>);

/// The entries with a serial not seen before, in card order.
pub open spec fn distinct_serials(s: Seq<CardEntryView>) -> Seq<CardEntryView>
    decreases s.len(),
{
    if s.len() == 0 {
        s
    } else {
        let d = distinct_serials(s.drop_last());
        if exists|k: int| 0 <= k < d.len() && (#[trigger] d[k]).1 == s.last().1 {
            d
        } else {
            d.push(s.last())
        }
    }
}

pub open spec fn entry_label(e: CardEntryView) -> Seq<char> {
    match e.2 {
        Some(t) => t,
        None => e.1,
    }
}

/// Each entry's title, or its serial when it has none, separated by `, `.
pub open spec fn labels_joined(s: Seq<CardEntryView>) -> Seq<char>
    decreases s.len(),
{
    if s.len() == 0 {
        seq![]
    } else if s.len() == 1 {
        entry_label(s[0])
    } else {
        labels_joined(s.drop_last()) + seq![',', ' '] + entry_label(s.last())
    }
}

/// The game a memory card is, from the distinct games inside it.
pub open spec fn card_game(distinct: Seq<CardEntryView>, stem: Seq<char>) -> (GameIdView, Option<Seq<char>>) {
    if distinct.len() == 0 {
        (GameIdView::Unidentified(stem), None)
    } else if distinct.len() == 1 {
        (GameIdView::Media(distinct[0].1), distinct[0].2)
    } else {
        (GameIdView::SharedCard, Some(labels_joined(distinct)))
    }
}

pub open spec fn card_contents(contents: Option<Seq<u8>>) -> Seq<CardEntryView> {
    match contents {
        Some(b) => psx_card::card_entries(b),
        None => seq![],
    }
}

pub open spec fn identified(identity: Identity, file: Seq<char>, contents: Option<Seq<u8>>) -> (GameIdView, Option<Seq<char>>) {
    match identity {
        Identity::PsxCard => card_game(distinct_serials(card_contents(contents)), file_stem_of(file)),
        Identity::FilenameMediaCode => match psx_card::media_code(file_stem_of(file)) {
            Some(code) => (GameIdView::Media(code), None),
            None => (GameIdView::Unidentified(file_stem_of(file)), None),
        },
    }
}

/// A file attributed to the game its area's identity rule names.
pub open spec fn attributed(
    app: App,
    spec: AreaSpecView,
    area_root: Seq<char>,
    file: Seq<char>,
    contents: Option<Seq<u8>>,
) -> SaveView {
    let (game, title) = identified(spec.identity, file, contents);
    SaveView { app, area: spec.area, area_root, game, title, file }
}

fn clone_title(t: &Option<String>) -> (r: Option<String>)
    ensures
        text::opt_view(r) == text::opt_view(*t),
{
    match t {
        Some(s) => Some(s.clone()),
        None => None,
    }
}

/// The game a memory card image is.
fn card_identity(file: &StrictPath, contents: &Option<Vec<u8>>) -> (r: (GameId, Option<String>))
    ensures
        (r.0@, text::opt_view(r.1)) == identified(Identity::PsxCard, file@, bytes_view(*contents)),
{
    let entries = match contents {
        Some(b) => psx_card::read_entries(b.as_slice()),
        None => Vec::new(),
    };
    let ghost ev = entries@.map_values(|e: psx_card::CardEntry| e@);
    assert(ev == card_contents(bytes_view(*contents)));
    let mut codes: Vec<usize> = Vec::new();
    let mut i: usize = 0;
    assert(ev.take(0) =~= Seq::<CardEntryView>::empty());
    assert(codes@.map_values(|k: usize| ev[k as int]) =~= Seq::<CardEntryView>::empty());
    while i < entries.len()
        invariant
            i <= entries.len(),
            ev == entries@.map_values(|e: psx_card::CardEntry| e@),
            forall|j: int| 0 <= j < codes@.len() ==> (#[trigger] codes@[j]) < i,
            codes@.map_values(|k: usize| ev[k as int]) == distinct_serials(ev.take(i as int)),
        decreases entries.len() - i,
    {
        let ghost d = codes@.map_values(|k: usize| ev[k as int]);
        assert(ev.take(i + 1).drop_last() == ev.take(i as int));
        let mut seen = false;
        let mut j: usize = 0;
        while j < codes.len()
            invariant
                j <= codes.len(),
                i < entries.len(),
                ev == entries@.map_values(|e: psx_card::CardEntry| e@),
                forall|q: int| 0 <= q < codes@.len() ==> (#[trigger] codes@[q]) < i,
                d == codes@.map_values(|k: usize| ev[k as int]),
                seen == exists|k: int| 0 <= k < j && (#[trigger] d[k]).1 == ev[i as int].1,
            decreases codes.len() - j,
        {
            if entries[codes[j]].serial == entries[i].serial {
                assert(d[j as int].1 == ev[i as int].1);
                seen = true;
            }
            j = j + 1;
        }
        if !seen {
            codes.push(i);
            assert(codes@.map_values(|k: usize| ev[k as int]) =~= d.push(ev[i as int]));
        }
        i = i + 1;
    }
    assert(ev.take(i as int) == ev);
    let ghost d = codes@.map_values(|k: usize| ev[k as int]);
    if codes.len() == 0 {
        (GameId::Unidentified(file_stem(file)), None)
    } else if codes.len() == 1 {
        let only = &entries[codes[0]];
        assert(only@ == d[0]);
        (GameId::Media(only.serial.clone()), clone_title(&only.title))
    } else {
        let mut out: Vec<char> = Vec::new();
        let mut j: usize = 0;
        assert(d.take(0) =~= Seq::<CardEntryView>::empty());
        while j < codes.len()
            invariant
                j <= codes.len(),
                ev == entries@.map_values(|e: psx_card::CardEntry| e@),
                forall|q: int| 0 <= q < codes@.len() ==> (#[trigger] codes@[q]) < entries.len(),
                d == codes@.map_values(|k: usize| ev[k as int]),
                out@ == labels_joined(d.take(j as int)),
            decreases codes.len() - j,
        {
            let e = &entries[codes[j]];
            assert(e@ == d[j as int]);
            assert(d.take(j + 1).drop_last() == d.take(j as int));
            assert(d.take(j + 1).last() == d[j as int]);
            if j > 0 {
                out.push(',');
                out.push(' ');
            }
            let mut label = match &e.title {
                Some(t) => text::chars_of(t.as_str()),
                None => text::chars_of(e.serial.as_str()),
            };
            out.append(&mut label);
            j = j + 1;
            assert(out@ =~= labels_joined(d.take(j as int)));
        }
        assert(d.take(j as int) == d);
        (GameId::SharedCard, Some(text::string_from(&out)))
    }
}

/// Attributes a file to a game, by the identity rule of its area.
fn attribute(
    app: App,
    spec: &AreaSpec,
    area_root: &StrictPath,
    file: &StrictPath,
    contents: &Option<Vec<u8>>,
) -> (r: Vec<DiscoveredSave>)
    ensures
        r@.map_values(|d: DiscoveredSave| d@) == seq![attributed(app, spec@, area_root@, file@, bytes_view(*contents))],
{
    let (game, title) = match spec.identity {
        Identity::PsxCard => card_identity(file, contents),
        Identity::FilenameMediaCode => {
            let stem = file_stem(file);
            match psx_card::media_code_in(stem.as_str()) {
                Some(code) => (GameId::Media(code), None),
                None => (GameId::Unidentified(stem), None),
            }
        },
    };
    let save = DiscoveredSave {
        app,
        area: spec.area,
        area_root: area_root.clone(),
        game,
        title,
        file: file.clone(),
    };
    let out = vec![save];
    assert(out@.map_values(|d: DiscoveredSave| d@) =~= seq![save@]);
    out
}

pub type DiskView = Seq<(Seq<char>, EntryKind, Option<Seq<u8>>)>;

/// The path is listed directly inside the folder.
pub open spec fn directly_in(path: Seq<char>, folder: Seq<char>) -> bool {
    match tail_under(path, folder) {
        Some(t) => t.len() == 1,
        None => false,
    }
}

/// The listing's entry is a file of the area.
pub open spec fn area_candidate(disk: DiskView, i: int, root: Seq<char>, extensions: Seq<&'static str>) -> bool {
    disk[i].1 == EntryKind::File && directly_in(disk[i].0, root) && has_ext(disk[i].0, extensions)
}

/// The files of the area among the first `n` entries of the listing, in listing order.
pub open spec fn area_files(disk: DiskView, n: int, root: Seq<char>, extensions: Seq<&'static str>) -> Seq<int>
    decreases n,
{
    if n <= 0 {
        seq![]
    } else {
        let before = area_files(disk, n - 1, root, extensions);
        if area_candidate(disk, n - 1, root, extensions) {
            before.push(n - 1)
        } else {
            before
        }
    }
}

/// Lexicographic order of code points, which is the byte order of the UTF-8 strings.
pub open spec fn lex_lt(a: Seq<char>, b: Seq<char>) -> bool
    decreases a.len(),
{
    if b.len() == 0 {
        false
    } else if a.len() == 0 {
        true
    } else if a[0] != b[0] {
        (a[0] as u32) < (b[0] as u32)
    } else {
        lex_lt(a.drop_first(), b.drop_first())
    }
}

pub open spec fn sort_key(disk: DiskView, i: int) -> Seq<char> {
    render_of(disk[i].0)
}

/// Where `x` goes in `s`, from `j` on: before the first entry whose key is greater.
pub open spec fn insertion_point(disk: DiskView, s: Seq<int>, x: int, j: int) -> int
    decreases s.len() - j,
{
    if j >= s.len() {
        s.len() as int
    } else if lex_lt(sort_key(disk, x), sort_key(disk, s[j])) {
        j
    } else {
        insertion_point(disk, s, x, j + 1)
    }
}

/// The entries ordered by their rendered path; entries with equal keys keep their listing order.
pub open spec fn sorted_by_render(disk: DiskView, s: Seq<int>) -> Seq<int>
    decreases s.len(),
{
    if s.len() == 0 {
        s
    } else {
        let t = sorted_by_render(disk, s.drop_last());
        t.insert(insertion_point(disk, t, s.last(), 0), s.last())
    }
}

/// The saves of one area: nothing when its folder is absent, otherwise each of its files, ordered
/// by rendered path, attributed to its game.
pub open spec fn area_saves(app: App, spec: AreaSpecView, data_root: Seq<char>, disk: DiskView) -> Seq<SaveView> {
    let root = join(data_root, spec.subdir@);
    if !has_entry(disk, root, EntryKind::Dir) {
        seq![]
    } else {
        sorted_by_render(disk, area_files(disk, disk.len() as int, root, spec.extensions)).map_values(
            |i: int| attributed(app, spec, root, disk[i].0, disk[i].2),
        )
    }
}

/// The saves of the first `n` areas of the emulator's profile, area after area.
pub open spec fn discovered(app: App, n: int, data_root: Seq<char>, disk: DiskView) -> Seq<SaveView>
    decreases n,
{
    if n <= 0 {
        seq![]
    } else {
        discovered(app, n - 1, data_root, disk) + area_saves(app, app_profile(app).areas[n - 1], data_root, disk)
    }
}

proof fn lemma_insertion_point_bounds(disk: DiskView, s: Seq<int>, x: int, j: int)
    requires
        0 <= j <= s.len(),
    ensures
        j <= insertion_point(disk, s, x, j) <= s.len(),
    decreases s.len() - j,
{
    if j < s.len() {
        lemma_insertion_point_bounds(disk, s, x, j + 1);
    }
}

/// Ordering the files of an area loses none and invents none: each file the listing holds for
/// the area is there exactly as many times as before.
pub proof fn ordering_keeps_every_file(disk: DiskView, s: Seq<int>)
    ensures
        sorted_by_render(disk, s).to_multiset() == s.to_multiset(),
        sorted_by_render(disk, s).len() == s.len(),
    decreases s.len(),
{
    broadcast use vstd::seq_lib::group_to_multiset_ensures;

    if s.len() > 0 {
        let t = sorted_by_render(disk, s.drop_last());
        ordering_keeps_every_file(disk, s.drop_last());
        lemma_insertion_point_bounds(disk, t, s.last(), 0);
        let p = insertion_point(disk, t, s.last(), 0);
        vstd::seq_lib::to_multiset_insert(t, p, s.last());
        assert(s =~= s.drop_last().push(s.last()));
        vstd::seq_lib::to_multiset_build(s.drop_last(), s.last());
    }
}

/// Every file of a present area becomes exactly one save: none is dropped in silence.
pub proof fn every_file_of_an_area_becomes_one_save(app: App, spec: AreaSpecView, data_root: Seq<char>, disk: DiskView)
    requires
        has_entry(disk, join(data_root, spec.subdir@), EntryKind::Dir),
    ensures
        area_saves(app, spec, data_root, disk).len() == area_files(
            disk,
            disk.len() as int,
            join(data_root, spec.subdir@),
            spec.extensions,
        ).len(),
{
    ordering_keeps_every_file(disk, area_files(disk, disk.len() as int, join(data_root, spec.subdir@), spec.extensions));
}

pub(crate) proof fn lemma_lex_transitive(a: Seq<char>, b: Seq<char>, c: Seq<char>)
    requires
        lex_lt(a, b),
        lex_lt(b, c),
    ensures
        lex_lt(a, c),
    decreases a.len(),
{
    if a.len() > 0 && b.len() > 0 && c.len() > 0 && a[0] == b[0] && b[0] == c[0] {
        lemma_lex_transitive(a.drop_first(), b.drop_first(), c.drop_first());
    }
}

proof fn lemma_insertion_point_props(disk: DiskView, t: Seq<int>, x: int, j: int)
    requires
        0 <= j <= t.len(),
    ensures
        forall|k: int| j <= k < insertion_point(disk, t, x, j) ==> !lex_lt(sort_key(disk, x), sort_key(disk, #[trigger] t[k])),
        insertion_point(disk, t, x, j) < t.len() ==> lex_lt(sort_key(disk, x), sort_key(disk, t[insertion_point(disk, t, x, j)])),
    decreases t.len() - j,
{
    if j < t.len() {
        lemma_insertion_point_props(disk, t, x, j + 1);
    }
}

/// The files are in the order of their rendered paths.
pub open spec fn ordered_by_render(disk: DiskView, s: Seq<int>) -> bool {
    forall|i: int, j: int| 0 <= i < j < s.len() ==> !lex_lt(sort_key(disk, #[trigger] s[j]), sort_key(disk, #[trigger] s[i]))
}

/// Whatever order the file system listed a folder in, the saves of an area come out in the order
/// of their rendered paths, so that two runs over the same folder agree.
pub proof fn saves_come_in_path_order(disk: DiskView, s: Seq<int>)
    ensures
        ordered_by_render(disk, sorted_by_render(disk, s)),
    decreases s.len(),
{
    if s.len() > 0 {
        let t = sorted_by_render(disk, s.drop_last());
        saves_come_in_path_order(disk, s.drop_last());
        let x = s.last();
        lemma_insertion_point_bounds(disk, t, x, 0);
        lemma_insertion_point_props(disk, t, x, 0);
        let p = insertion_point(disk, t, x, 0);
        let u = t.insert(p, x);
        assert(u == sorted_by_render(disk, s));
        assert forall|i: int, j: int| 0 <= i < j < u.len() implies !lex_lt(sort_key(disk, #[trigger] u[j]), sort_key(disk, #[trigger] u[i])) by {
            if j < p {
                assert(u[i] == t[i] && u[j] == t[j]);
            } else if j == p {
                assert(u[i] == t[i] && u[j] == x);
            } else if i > p {
                assert(u[i] == t[i - 1] && u[j] == t[j - 1]);
            } else if i == p {
                assert(u[i] == x && u[j] == t[j - 1]);
                if lex_lt(sort_key(disk, t[j - 1]), sort_key(disk, x)) {
                    if j - 1 > p {
                        lemma_lex_transitive(sort_key(disk, t[j - 1]), sort_key(disk, x), sort_key(disk, t[p]));
                        assert(!lex_lt(sort_key(disk, t[j - 1]), sort_key(disk, t[p])));
                    } else {
                        lemma_lex_irreflexive(sort_key(disk, t[p]));
                        lemma_lex_asymmetric(sort_key(disk, x), sort_key(disk, t[p]));
                    }
                }
            } else {
                assert(u[i] == t[i] && u[j] == t[j - 1]);
            }
        }
    }
}

pub(crate) proof fn lemma_lex_irreflexive(a: Seq<char>)
    ensures
        !lex_lt(a, a),
    decreases a.len(),
{
    if a.len() > 0 {
        lemma_lex_irreflexive(a.drop_first());
    }
}

/// Of two different texts, one comes first.
pub(crate) proof fn lemma_lex_total(a: Seq<char>, b: Seq<char>)
    requires
        a != b,
    ensures
        lex_lt(a, b) || lex_lt(b, a),
    decreases a.len(),
{
    if a.len() > 0 && b.len() > 0 && a[0] == b[0] {
        if a.drop_first() == b.drop_first() {
            assert(a =~= seq![a[0]] + a.drop_first());
            assert(b =~= seq![b[0]] + b.drop_first());
        }
        lemma_lex_total(a.drop_first(), b.drop_first());
    } else if a.len() > 0 && b.len() > 0 {
        vstd::utf8::char_u32_cast(a[0], a[0] as u32);
        vstd::utf8::char_u32_cast(b[0], b[0] as u32);
    } else if a.len() == 0 && b.len() == 0 {
        assert(a =~= b);
    }
}

pub(crate) proof fn lemma_lex_asymmetric(a: Seq<char>, b: Seq<char>)
    ensures
        !(lex_lt(a, b) && lex_lt(b, a)),
    decreases a.len(),
{
    if a.len() > 0 && b.len() > 0 && a[0] == b[0] {
        lemma_lex_asymmetric(a.drop_first(), b.drop_first());
    }
}

proof fn lemma_lex_skip(a: Seq<char>, b: Seq<char>, i: int)
    requires
        0 <= i <= a.len(),
        i <= b.len(),
        forall|k: int| 0 <= k < i ==> a[k] == b[k],
    ensures
        lex_lt(a, b) == lex_lt(a.skip(i), b.skip(i)),
    decreases i,
{
    if i > 0 {
        lemma_lex_skip(a.drop_first(), b.drop_first(), i - 1);
        assert(a.drop_first().skip(i - 1) =~= a.skip(i));
        assert(b.drop_first().skip(i - 1) =~= b.skip(i));
    } else {
        assert(a.skip(0) =~= a);
        assert(b.skip(0) =~= b);
    }
}

pub(crate) fn lex_less(a: &Vec<char>, b: &Vec<char>) -> (r: bool)
    ensures
        r == lex_lt(a@, b@),
{
    let mut i: usize = 0;
    while i < a.len() && i < b.len()
        invariant
            i <= a.len(),
            i <= b.len(),
            forall|k: int| 0 <= k < i ==> a@[k] == b@[k],
        decreases a.len() - i,
    {
        if a[i] != b[i] {
            proof {
                lemma_lex_skip(a@, b@, i as int);
                assert(a@.skip(i as int)[0] == a@[i as int]);
                assert(b@.skip(i as int)[0] == b@[i as int]);
            }
            return (a[i] as u32) < (b[i] as u32);
        }
        i = i + 1;
    }
    proof {
        lemma_lex_skip(a@, b@, i as int);
    }
    i == a.len() && i < b.len()
}

/// Lists a data folder's areas and returns the saves found in them.
///
/// Cost: one pass over the listing per area, with no recursive descent.
pub fn discover_saves(app: App, data_root: &StrictPath, disk: &Disk) -> (r: Vec<DiscoveredSave>)
    ensures
        r@.map_values(|d: DiscoveredSave| d@) == discovered(app, app_profile(app).areas.len() as int, data_root@, disk@),
{
    let profile = app.profile();
    let ghost d = disk@;
    let mut rendered: Vec<Vec<char>> = Vec::new();
    let mut e: usize = 0;
    while e < disk.entries.len()
        invariant
            e <= disk.entries.len(),
            d == disk@,
            rendered@.len() == e,
            forall|k: int| 0 <= k < e ==> (#[trigger] rendered@[k])@ == sort_key(d, k),
        decreases disk.entries.len() - e,
    {
        assert(d[e as int].0 == disk.entries[e as int].path@);
        rendered.push(text::chars_of(disk.entries[e].path.render().as_str()));
        e = e + 1;
    }
    let mut found: Vec<DiscoveredSave> = Vec::new();
    let mut a: usize = 0;
    while a < profile.areas.len()
        invariant
            a <= profile.areas.len(),
            profile@ == app_profile(app),
            d == disk@,
            rendered@.len() == d.len(),
            forall|k: int| 0 <= k < d.len() ==> (#[trigger] rendered@[k])@ == sort_key(d, k),
            found@.map_values(|s: DiscoveredSave| s@) == discovered(app, a as int, data_root@, d),
        decreases profile.areas.len() - a,
    {
        let spec = &profile.areas[a];
        let ghost sv = spec@;
        assert(sv == app_profile(app).areas[a as int]);
        let ghost before = found@.map_values(|s: DiscoveredSave| s@);
        let area_root = data_root.joined(spec.subdir);
        if disk.is_dir(&area_root) {
            let ghost root = area_root@;
            // The area's files, in listing order.
            let mut files: Vec<usize> = Vec::new();
            let mut i: usize = 0;
            while i < disk.entries.len()
                invariant
                    i <= disk.entries.len(),
                    d == disk@,
                    root == area_root@,
                    sv == spec@,
                    files@.map_values(|u: usize| u as int) == area_files(d, i as int, root, sv.extensions),
                    forall|k: int| 0 <= k < files@.len() ==> (#[trigger] files@[k]) < i,
                decreases disk.entries.len() - i,
            {
                let ghost fb = files@.map_values(|u: usize| u as int);
                let entry = &disk.entries[i];
                assert(d[i as int] == entry@);
                let under = match entry.path.case_insensitive_tail_for(&area_root) {
                    Some(t) => t.len() == 1,
                    None => false,
                };
                if entry.kind == EntryKind::File && under && has_extension(&entry.path, &spec.extensions) {
                    files.push(i);
                    assert(files@.map_values(|u: usize| u as int) =~= fb.push(i as int));
                }
                i = i + 1;
            }
            // Determinism: the order in which a file system lists a folder is not guaranteed.
            let mut sorted: Vec<usize> = Vec::new();
            let mut m: usize = 0;
            let ghost fs = files@.map_values(|u: usize| u as int);
            assert(fs.take(0) =~= Seq::<int>::empty());
            while m < files.len()
                invariant
                    m <= files.len(),
                    d == disk@,
                    fs == files@.map_values(|u: usize| u as int),
                    forall|k: int| 0 <= k < files@.len() ==> (#[trigger] files@[k]) < d.len(),
                    rendered@.len() == d.len(),
                    forall|k: int| 0 <= k < d.len() ==> (#[trigger] rendered@[k])@ == sort_key(d, k),
                    sorted@.map_values(|u: usize| u as int) == sorted_by_render(d, fs.take(m as int)),
                    forall|k: int| 0 <= k < sorted@.len() ==> (#[trigger] sorted@[k]) < d.len(),
                decreases files.len() - m,
            {
                let x = files[m];
                let ghost t = sorted@.map_values(|u: usize| u as int);
                assert(fs.take(m + 1).drop_last() == fs.take(m as int));
                assert(fs.take(m + 1).last() == x as int);
                let mut j: usize = 0;
                while j < sorted.len() && !lex_less(&rendered[x], &rendered[sorted[j]])
                    invariant
                        j <= sorted.len(),
                        x < d.len(),
                        t == sorted@.map_values(|u: usize| u as int),
                        rendered@.len() == d.len(),
                        forall|k: int| 0 <= k < d.len() ==> (#[trigger] rendered@[k])@ == sort_key(d, k),
                        forall|k: int| 0 <= k < sorted@.len() ==> (#[trigger] sorted@[k]) < d.len(),
                        insertion_point(d, t, x as int, 0) == insertion_point(d, t, x as int, j as int),
                    decreases sorted.len() - j,
                {
                    j = j + 1;
                }
                assert(insertion_point(d, t, x as int, 0) == j);
                sorted.insert(j, x);
                assert(sorted@.map_values(|u: usize| u as int) =~= t.insert(j as int, x as int));
                assert forall|k: int| 0 <= k < sorted@.len() implies (#[trigger] sorted@[k]) < d.len() by {
                    if k < j {
                        assert(sorted@[k] == t[k]);
                    } else if k > j {
                        assert(sorted@[k] == t[k - 1]);
                    }
                }
                m = m + 1;
            }
            assert(fs.take(m as int) == fs);
            let ghost order = sorted@.map_values(|u: usize| u as int);
            let mut q: usize = 0;
            while q < sorted.len()
                invariant
                    q <= sorted.len(),
                    d == disk@,
                    root == area_root@,
                    sv == spec@,
                    order == sorted@.map_values(|u: usize| u as int),
                    forall|k: int| 0 <= k < sorted@.len() ==> (#[trigger] sorted@[k]) < d.len(),
                    found@.map_values(|s: DiscoveredSave| s@) == before + order.take(q as int).map_values(
                        |i: int| attributed(app, sv, root, d[i].0, d[i].2),
                    ),
                decreases sorted.len() - q,
            {
                let k = sorted[q];
                let entry = &disk.entries[k];
                assert(d[k as int] == entry@);
                let ghost fq = found@.map_values(|s: DiscoveredSave| s@);
                let mut one = attribute(app, spec, &area_root, &entry.path, &entry.contents);
                found.append(&mut one);
                assert(order.take(q + 1) =~= order.take(q as int).push(k as int));
                assert(found@.map_values(|s: DiscoveredSave| s@) =~= fq + seq![attributed(app, sv, root, d[k as int].0, d[k as int].2)]);
                q = q + 1;
                assert(found@.map_values(|s: DiscoveredSave| s@) =~= before + order.take(q as int).map_values(
                    |i: int| attributed(app, sv, root, d[i].0, d[i].2),
                ));
            }
            assert(order.take(q as int) == order);
        } else {
            assert(found@.map_values(|s: DiscoveredSave| s@) =~= before + Seq::<SaveView>::empty());
        }
        a = a + 1;
    }
    found
}

/// An emulator folder the user configured as a root, its path already interpreted, with the
/// emulator chosen for it, if one was.
#[derive(Clone, Debug)]
pub struct EmulatorRoot {
    pub path: StrictPath,
    pub app: Option<App>,
}

pub type RootsView = Seq<(App, Seq<char>)>;

/// The entries with `app` that are at `place`, of which there is at most one.
pub open spec fn known_at(e: RootsView, app: App, place: Seq<char>) -> bool {
    exists|k: int| 0 <= k < e.len() && (#[trigger] e[k]).0 == app && same_place(e[k].1, place)
}

pub open spec fn push_unique_spec(e: RootsView, app: App, place: Seq<char>) -> RootsView {
    if known_at(e, app, place) {
        e
    } else {
        e.push((app, place))
    }
}

/// No emulator is listed twice at the same place.
pub open spec fn distinct_places(e: RootsView) -> bool {
    forall|i: int, j: int|
        0 <= i < j < e.len() ==> !((#[trigger] e[i]).0 == (#[trigger] e[j]).0 && same_place(e[i].1, e[j].1))
}

/// The emulator a folder is, when exactly one recognises it.
pub open spec fn detected(data_root: Seq<char>, disk: DiskView) -> Option<App> {
    let found = recognising(8, data_root, disk);
    if found.len() == 1 {
        Some(found[0])
    } else {
        None
    }
}

/// The data folders of the first `n` configured roots: each root's emulator is the one chosen for
/// it, or the one that recognises it, and it counts only when that emulator recognises it.
pub open spec fn configured(roots: Seq<(Seq<char>, Option<App>)>, n: int, disk: DiskView) -> RootsView
    decreases n,
{
    if n <= 0 {
        seq![]
    } else {
        let e = configured(roots, n - 1, disk);
        let path = roots[n - 1].0;
        let app = match roots[n - 1].1 {
            Some(a) => Some(a),
            None => detected(path, disk),
        };
        match app {
            Some(a) => if recognises(a, path, disk) {
                push_unique_spec(e, a, path)
            } else {
                e
            },
            None => e,
        }
    }
}

pub open spec fn push_all_unique(e: RootsView, app: App, places: Seq<Seq<char>>) -> RootsView
    decreases places.len(),
{
    if places.len() == 0 {
        e
    } else {
        push_unique_spec(push_all_unique(e, app, places.drop_last()), app, places.last())
    }
}

pub open spec fn has_app(e: RootsView, app: App) -> bool {
    exists|k: int| 0 <= k < e.len() && (#[trigger] e[k]).0 == app
}

/// The first `n` emulators with no configured root get the defaults of this machine that hold
/// their data.
pub open spec fn with_defaults(e: RootsView, n: int, paths: CommonPaths, disk: DiskView) -> RootsView
    decreases n,
{
    if n <= 0 {
        e
    } else {
        let before = with_defaults(e, n - 1, paths, disk);
        let app = all_apps()[n - 1];
        if has_app(before, app) {
            before
        } else {
            push_all_unique(
                before,
                app,
                installed_roots(app, app_profile(app).data_roots.len() as int, paths, disk),
            )
        }
    }
}

pub open spec fn roots_for(roots: Seq<(Seq<char>, Option<App>)>, paths: CommonPaths, disk: DiskView) -> RootsView {
    with_defaults(configured(roots, roots.len() as int, disk), 8, paths, disk)
}

/// The places listed for one emulator, in order.
pub open spec fn places_of(e: RootsView, app: App) -> Seq<Seq<char>>
    decreases e.len(),
{
    if e.len() == 0 {
        seq![]
    } else if e.last().0 == app {
        places_of(e.drop_last(), app).push(e.last().1)
    } else {
        places_of(e.drop_last(), app)
    }
}

proof fn lemma_places_of_listed(e: RootsView, app: App)
    ensures
        forall|k: int|
            0 <= k < places_of(e, app).len() ==> exists|idx: int|
                0 <= idx < e.len() && #[trigger] e[idx] == (app, #[trigger] places_of(e, app)[k]),
    decreases e.len(),
{
    if e.len() > 0 {
        let d = e.drop_last();
        lemma_places_of_listed(d, app);
        assert forall|k: int| 0 <= k < places_of(e, app).len() implies exists|idx: int|
            0 <= idx < e.len() && #[trigger] e[idx] == (app, #[trigger] places_of(e, app)[k]) by {
            if k < places_of(d, app).len() {
                assert(places_of(e, app)[k] == places_of(d, app)[k]);
                let idx = choose|idx: int| 0 <= idx < d.len() && #[trigger] d[idx] == (app, places_of(d, app)[k]);
                assert(e[idx] == d[idx]);
            } else {
                assert(e[e.len() - 1] == (app, places_of(e, app)[k]));
            }
        }
    }
}

/// Where no emulator is listed twice at the same place, the candidates of an emulator are
/// pairwise different places.
proof fn lemma_places_of_distinct(e: RootsView, app: App)
    requires
        distinct_places(e),
    ensures
        forall|i: int, j: int|
            0 <= i < j < places_of(e, app).len() ==> !same_place(
                #[trigger] places_of(e, app)[i],
                #[trigger] places_of(e, app)[j],
            ),
    decreases e.len(),
{
    if e.len() > 0 {
        let d = e.drop_last();
        assert forall|i: int, j: int| 0 <= i < j < d.len() implies !((#[trigger] d[i]).0 == (#[trigger] d[j]).0
            && same_place(d[i].1, d[j].1)) by {
            assert(d[i] == e[i] && d[j] == e[j]);
        }
        lemma_places_of_distinct(d, app);
        lemma_places_of_listed(d, app);
        let p = places_of(e, app);
        let q = places_of(d, app);
        if e.last().0 == app {
            assert forall|i: int, j: int| 0 <= i < j < p.len() implies !same_place(#[trigger] p[i], #[trigger] p[j]) by {
                if j < q.len() {
                    assert(p[i] == q[i] && p[j] == q[j]);
                } else {
                    assert(p[i] == q[i]);
                    let idx = choose|idx: int| 0 <= idx < d.len() && #[trigger] d[idx] == (app, q[i]);
                    assert(e[idx] == d[idx]);
                    assert(e[e.len() - 1] == e.last());
                    assert(!((e[idx]).0 == (e[e.len() - 1]).0 && same_place(e[idx].1, e[e.len() - 1].1)));
                }
            }
        }
    }
}

/// The first `n` entries, each emulator at a place only once.
pub open spec fn listed_once(entries: RootsView, n: int) -> RootsView
    decreases n,
{
    if n <= 0 {
        seq![]
    } else {
        push_unique_spec(listed_once(entries, n - 1), entries[n - 1].0, entries[n - 1].1)
    }
}

/// Emulator data folders known on this machine.
///
/// It is the analogue of a Wine prefix: the state of the system that a restore needs to re-anchor
/// a path recorded in the backup.
#[derive(Debug)]
pub struct Roots {
    entries: Vec<(App, StrictPath)>,
}

impl View for Roots {
    type V = RootsView;

    closed spec fn view(&self) -> RootsView {
        self.entries@.map_values(|e: (App, StrictPath)| (e.0, e.1@))
    }
}

impl Default for Roots {
    /// No emulator anywhere.
    fn default() -> (r: Roots)
        ensures
            r@ == Seq::<(App, Seq<char>)>::empty(),
    {
        let r = Roots { entries: Vec::new() };
        assert(r@ =~= Seq::<(App, Seq<char>)>::empty());
        r
    }
}

impl Roots {
    /// No emulator is kept twice at the same place.
    #[verifier::type_invariant]
    spec fn places_are_distinct(self) -> bool {
        distinct_places(self.entries@.map_values(|e: (App, StrictPath)| (e.0, e.1@)))
    }
}

proof fn lemma_push_unique_keeps_distinct(e: RootsView, app: App, place: Seq<char>)
    requires
        distinct_places(e),
    ensures
        distinct_places(push_unique_spec(e, app, place)),
{
    if !known_at(e, app, place) {
        let n = e.push((app, place));
        assert forall|i: int, j: int| 0 <= i < j < n.len() implies !((#[trigger] n[i]).0 == (#[trigger] n[j]).0 && same_place(n[i].1, n[j].1)) by {
            if j == e.len() {
                assert(n[i] == e[i]);
                if n[i].0 == app && same_place(e[i].1, place) {
                    assert(known_at(e, app, place));
                }
            } else {
                assert(n[i] == e[i] && n[j] == e[j]);
            }
        }
    }
}

fn push_unique(entries: &mut Vec<(App, StrictPath)>, app: App, path: StrictPath)
    ensures
        final(entries)@.map_values(|e: (App, StrictPath)| (e.0, e.1@)) == push_unique_spec(
            old(entries)@.map_values(|e: (App, StrictPath)| (e.0, e.1@)),
            app,
            path@,
        ),
{
    let ghost e = entries@.map_values(|x: (App, StrictPath)| (x.0, x.1@));
    let mut i: usize = 0;
    while i < entries.len()
        invariant
            i <= entries.len(),
            e == entries@.map_values(|x: (App, StrictPath)| (x.0, x.1@)),
            forall|k: int| 0 <= k < i ==> !((#[trigger] e[k]).0 == app && same_place(e[k].1, path@)),
        decreases entries.len() - i,
    {
        assert(e[i as int] == (entries@[i as int].0, entries@[i as int].1@));
        if entries[i].0 == app && entries[i].1.equivalent(&path) {
            return;
        }
        i = i + 1;
    }
    let ghost p = path@;
    entries.push((app, path));
    assert(entries@.map_values(|x: (App, StrictPath)| (x.0, x.1@)) =~= e.push((app, p)));
}

impl Roots {
    /// The roots listed, in order, each emulator at a place only once.
    pub fn new(entries: Vec<(App, StrictPath)>) -> (r: Roots)
        ensures
            r@ == listed_once(entries@.map_values(|e: (App, StrictPath)| (e.0, e.1@)), entries@.len() as int),
            distinct_places(r@),
    {
        let ghost given = entries@.map_values(|e: (App, StrictPath)| (e.0, e.1@));
        let mut out: Vec<(App, StrictPath)> = Vec::new();
        let mut i: usize = 0;
        let rest = entries;
        assert(out@.map_values(|x: (App, StrictPath)| (x.0, x.1@)) =~= Seq::<(App, Seq<char>)>::empty());
        while i < rest.len()
            invariant
                i <= rest.len(),
                given == rest@.map_values(|e: (App, StrictPath)| (e.0, e.1@)),
                out@.map_values(|x: (App, StrictPath)| (x.0, x.1@)) == listed_once(given, i as int),
                distinct_places(listed_once(given, i as int)),
            decreases rest.len() - i,
        {
            assert(given[i as int] == (rest@[i as int].0, rest@[i as int].1@));
            let app = rest[i].0;
            let path = rest[i].1.clone();
            proof {
                lemma_push_unique_keeps_distinct(listed_once(given, i as int), app, path@);
            }
            push_unique(&mut out, app, path);
            i = i + 1;
        }
        Roots { entries: out }
    }

    /// Builds the list from the emulator roots the user configured and, for the emulators with
    /// no configured root, from the default places of this machine.
    pub fn for_config(roots: &Vec<EmulatorRoot>, paths: &CommonPaths, disk: &Disk) -> (r: Roots)
        ensures
            r@ == roots_for(roots@.map_values(|x: EmulatorRoot| (x.path@, x.app)), *paths, disk@),
            distinct_places(r@),
    {
        let ghost rv = roots@.map_values(|x: EmulatorRoot| (x.path@, x.app));
        let ghost d = disk@;
        let mut entries: Vec<(App, StrictPath)> = Vec::new();
        let mut i: usize = 0;
        assert(entries@.map_values(|x: (App, StrictPath)| (x.0, x.1@)) =~= Seq::<(App, Seq<char>)>::empty());
        while i < roots.len()
            invariant
                i <= roots.len(),
                rv == roots@.map_values(|x: EmulatorRoot| (x.path@, x.app)),
                d == disk@,
                entries@.map_values(|x: (App, StrictPath)| (x.0, x.1@)) == configured(rv, i as int, d),
                distinct_places(configured(rv, i as int, d)),
            decreases roots.len() - i,
        {
            let root = &roots[i];
            assert(rv[i as int] == (root.path@, root.app));
            let ghost before = configured(rv, i as int, d);
            let app = match root.app {
                Some(a) => Some(a),
                None => App::detect(&root.path, disk),
            };
            proof {
                if root.app is None {
                    let f = recognising(8, root.path@, d);
                    assert(app matches Some(a) ==> f == seq![a] && f[0] == a);
                }
            }
            match app {
                Some(a) => match a.data_root_at(&root.path, disk) {
                    Some(data_root) => {
                        proof {
                            lemma_push_unique_keeps_distinct(before, a, data_root@);
                        }
                        push_unique(&mut entries, a, data_root);
                    },
                    None => {},
                },
                None => {},
            }
            i = i + 1;
        }
        let ghost base = configured(rv, roots.len() as int, d);
        let mut n: usize = 0;
        while n < 8
            invariant
                n <= 8,
                d == disk@,
                entries@.map_values(|x: (App, StrictPath)| (x.0, x.1@)) == with_defaults(base, n as int, *paths, d),
                distinct_places(with_defaults(base, n as int, *paths, d)),
            decreases 8 - n,
        {
            let app = App::ALL[n];
            assert(app == all_apps()[n as int]);
            let ghost before = with_defaults(base, n as int, *paths, d);
            let mut present = false;
            let mut k: usize = 0;
            while k < entries.len()
                invariant
                    k <= entries.len(),
                    before == entries@.map_values(|x: (App, StrictPath)| (x.0, x.1@)),
                    present == exists|w: int| 0 <= w < k && (#[trigger] before[w]).0 == app,
                decreases entries.len() - k,
            {
                assert(before[k as int].0 == entries@[k as int].0);
                if entries[k].0 == app {
                    present = true;
                }
                k = k + 1;
            }
            if !present {
                let found = app.installed_data_roots(paths, disk);
                let ghost places = found@.map_values(|p: StrictPath| p@);
                let mut m: usize = 0;
                assert(places.take(0) =~= Seq::<Seq<char>>::empty());
                while m < found.len()
                    invariant
                        m <= found.len(),
                        places == found@.map_values(|p: StrictPath| p@),
                        entries@.map_values(|x: (App, StrictPath)| (x.0, x.1@)) == push_all_unique(before, app, places.take(m as int)),
                        distinct_places(push_all_unique(before, app, places.take(m as int))),
                    decreases found.len() - m,
                {
                    assert(places.take(m + 1).drop_last() == places.take(m as int));
                    proof {
                        lemma_push_unique_keeps_distinct(push_all_unique(before, app, places.take(m as int)), app, places[m as int]);
                    }
                    push_unique(&mut entries, app, found[m].clone());
                    m = m + 1;
                }
                assert(places.take(m as int) == places);
            }
            n = n + 1;
        }
        Roots { entries }
    }

    /// This emulator's data folder on this machine.
    ///
    /// `None` when there is none **and also** when there is more than one, because two installs
    /// of the same emulator (the old one in Documents and the new one in AppData, for example)
    /// make the destination undetermined, and writing a save to the wrong place is the worst
    /// defect possible here.
    pub fn data_root(&self, app: App) -> (r: Option<&StrictPath>)
        ensures
            match r {
                Some(p) => places_of(self@, app).len() == 1 && p@ == places_of(self@, app)[0],
                None => places_of(self@, app).len() != 1,
            },
    {
        let found = self.candidates(app);
        if found.len() == 1 {
            Some(found[0])
        } else {
            None
        }
    }

    /// Every candidate of an emulator, so that a diagnosis can explain an ambiguity.
    pub fn candidates(&self, app: App) -> (r: Vec<&StrictPath>)
        ensures
            r@.map_values(|p: &StrictPath| p@) == places_of(self@, app),
            distinct_places(self@),
            forall|i: int, j: int| 0 <= i < j < r@.len() ==> !same_place(#[trigger] r@[i]@, #[trigger] r@[j]@),
    {
        proof {
            use_type_invariant(self);
            lemma_places_of_distinct(self@, app);
        }
        let ghost e = self@;
        let mut out: Vec<&StrictPath> = Vec::new();
        let mut i: usize = 0;
        assert(e.take(0) =~= Seq::<(App, Seq<char>)>::empty());
        while i < self.entries.len()
            invariant
                i <= self.entries.len(),
                e == self@,
                e == self.entries@.map_values(|x: (App, StrictPath)| (x.0, x.1@)),
                out@.map_values(|p: &StrictPath| p@) == places_of(e.take(i as int), app),
            decreases self.entries.len() - i,
        {
            assert(e.take(i + 1).drop_last() == e.take(i as int));
            assert(e.take(i + 1).last() == e[i as int]);
            let ghost before = out@.map_values(|p: &StrictPath| p@);
            if self.entries[i].0 == app {
                out.push(&self.entries[i].1);
                assert(out@.map_values(|p: &StrictPath| p@) =~= before.push(e[i as int].1));
            }
            i = i + 1;
        }
        assert(e.take(i as int) == e);
        assert forall|i: int, j: int| 0 <= i < j < out@.len() implies !same_place(#[trigger] out@[i]@, #[trigger] out@[j]@) by {
            assert(out@[i]@ == places_of(e, app)[i] && out@[j]@ == places_of(e, app)[j]);
        }
        out
    }

    pub fn is_empty(&self) -> (r: bool)
        ensures
            r == (self@.len() == 0),
    {
        self.entries.len() == 0
    }

    /// Every emulator and data folder listed, in order.
    pub fn iter(&self) -> (r: Vec<(App, &StrictPath)>)
        ensures
            r@.map_values(|x: (App, &StrictPath)| (x.0, x.1@)) == self@,
    {
        let ghost e = self@;
        let mut out: Vec<(App, &StrictPath)> = Vec::new();
        let mut i: usize = 0;
        while i < self.entries.len()
            invariant
                i <= self.entries.len(),
                e == self.entries@.map_values(|x: (App, StrictPath)| (x.0, x.1@)),
                out@.map_values(|x: (App, &StrictPath)| (x.0, x.1@)) == e.take(i as int),
            decreases self.entries.len() - i,
        {
            let ghost before = out@.map_values(|x: (App, &StrictPath)| (x.0, x.1@));
            assert(e[i as int] == (self.entries@[i as int].0, self.entries@[i as int].1@));
            assert(e.take(i + 1) =~= e.take(i as int).push(e[i as int]));
            out.push((self.entries[i].0, &self.entries[i].1));
            assert(out@.map_values(|x: (App, &StrictPath)| (x.0, x.1@)) =~= before.push(e[i as int]));
            i = i + 1;
        }
        assert(e.take(i as int) == e);
        out
    }
}


/// A folder is an emulator's own exactly when that emulator recognises it and no other does: a
/// tie between two is never broken by guessing.
pub proof fn a_folder_is_detected_only_when_one_emulator_claims_it(
    data_root: Seq<char>,
    disk: Seq<(Seq<char>, EntryKind, Option<Seq<u8>>)>,
    app: App,
)
    ensures
        recognising(8, data_root, disk) == seq![app] <==> (recognises(app, data_root, disk) && forall|other: App|
            other != app ==> !#[trigger] recognises(other, data_root, disk)),
{
    reveal_with_fuel(recognising, 9);
    let r = recognising(8, data_root, disk);
    if recognises(app, data_root, disk) && forall|other: App| other != app ==> !#[trigger] recognises(other, data_root, disk) {
        assert(forall|k: int| 0 <= k < 8 && all_apps()[k] != app ==> !recognises(#[trigger] all_apps()[k], data_root, disk));
        assert(r =~= seq![app]);
    }
    if r == seq![app] {
        assert(r.len() == 1 && r[0] == app);
        assert forall|other: App| other != app implies !#[trigger] recognises(other, data_root, disk) by {
            match other {
                App::Ppsspp => {},
                App::DuckStation => {},
                App::Pcsx2 => {},
                App::Rpcs3 => {},
                App::ShadPs4 => {},
                App::Sudachi => {},
                App::Eden => {},
                App::Xenia => {},
            }
        }
    }
}

/// Every data folder an emulator is found at on this machine is one it recognises, and there are
/// never more of them than the profile has defaults.
pub proof fn an_installed_data_root_is_recognised(
    app: App,
    n: int,
    paths: CommonPaths,
    disk: Seq<(Seq<char>, EntryKind, Option<Seq<u8>>)>,
)
    requires
        0 <= n <= app_profile(app).data_roots.len(),
    ensures
        installed_roots(app, n, paths, disk).len() <= n,
        forall|k: int|
            0 <= k < installed_roots(app, n, paths, disk).len() ==> recognises(
                app,
                #[trigger] installed_roots(app, n, paths, disk)[k],
                disk,
            ),
    decreases n,
{
    if n > 0 {
        an_installed_data_root_is_recognised(app, n - 1, paths, disk);
    }
}

/// DuckStation's data folder: a folder with `memcards`, with `settings.ini` or `portable.txt`,
/// and without the `inis` folder that marks a portable PCSX2.
pub proof fn what_duckstation_recognises(data_root: Seq<char>, disk: Seq<(Seq<char>, EntryKind, Option<Seq<u8>>)>)
    ensures
        recognises(App::DuckStation, data_root, disk) == (has_entry(disk, data_root, EntryKind::Dir)
            && has_entry(disk, join(data_root, "memcards"@), EntryKind::Dir)
            && (has_entry(disk, join(data_root, "settings.ini"@), EntryKind::File) || has_entry(
            disk,
            join(data_root, "portable.txt"@),
            EntryKind::File,
        )) && !has_entry(disk, join(data_root, "inis"@), EntryKind::Dir)),
{
    let sig = app_profile(App::DuckStation).signature;
    assert(sig.0[0] == Marker::Dir("memcards"));
    assert(sig.1[0] == Marker::File("settings.ini"));
    assert(sig.1[1] == Marker::File("portable.txt"));
    assert(sig.2[0] == Marker::Dir("inis"));
    if has_entry(disk, join(data_root, "settings.ini"@), EntryKind::File) {
        assert(marker_present(sig.1[0], data_root, disk));
    }
    if has_entry(disk, join(data_root, "portable.txt"@), EntryKind::File) {
        assert(marker_present(sig.1[1], data_root, disk));
    }
}


/// How many files of the listing belong to the first `n` areas of the emulator's profile, an
/// area whose folder is absent counting none.
pub open spec fn files_in_areas(app: App, n: int, data_root: Seq<char>, disk: DiskView) -> int
    decreases n,
{
    if n <= 0 {
        0
    } else {
        let spec = app_profile(app).areas[n - 1];
        let root = join(data_root, spec.subdir@);
        files_in_areas(app, n - 1, data_root, disk) + if has_entry(disk, root, EntryKind::Dir) {
            area_files(disk, disk.len() as int, root, spec.extensions).len() as int
        } else {
            0int
        }
    }
}

/// Discovery makes exactly one save of each file, directly inside a present area's folder, that
/// carries one of the area's extensions, and nothing of anything else; the saves of an area come
/// after those of the areas before it in the profile.
pub proof fn every_file_of_every_area_becomes_one_save(app: App, n: int, data_root: Seq<char>, disk: DiskView)
    requires
        0 <= n <= app_profile(app).areas.len(),
    ensures
        discovered(app, n, data_root, disk).len() == files_in_areas(app, n, data_root, disk),
        n > 0 ==> discovered(app, n, data_root, disk) == discovered(app, n - 1, data_root, disk) + area_saves(
            app,
            app_profile(app).areas[n - 1],
            data_root,
            disk,
        ),
    decreases n,
{
    if n > 0 {
        every_file_of_every_area_becomes_one_save(app, n - 1, data_root, disk);
        let spec = app_profile(app).areas[n - 1];
        if has_entry(disk, join(data_root, spec.subdir@), EntryKind::Dir) {
            every_file_of_an_area_becomes_one_save(app, spec, data_root, disk);
        }
    }
}


proof fn lemma_push_all_unique(e: RootsView, app: App, places: Seq<Seq<char>>)
    ensures
        push_all_unique(e, app, places).len() >= e.len(),
        push_all_unique(e, app, places).take(e.len() as int) == e,
        forall|k: int|
            e.len() <= k < push_all_unique(e, app, places).len() ==> (#[trigger] push_all_unique(e, app, places)[k]).0 == app
                && places.contains(push_all_unique(e, app, places)[k].1),
    decreases places.len(),
{
    if places.len() > 0 {
        let prev = push_all_unique(e, app, places.drop_last());
        lemma_push_all_unique(e, app, places.drop_last());
        let r = push_all_unique(e, app, places);
        assert forall|k: int| e.len() <= k < r.len() implies (#[trigger] r[k]).0 == app && places.contains(r[k].1) by {
            if k < prev.len() {
                assert(r[k] == prev[k]);
                let w = choose|w: int| 0 <= w < places.drop_last().len() && places.drop_last()[w] == prev[k].1;
                assert(places[w] == prev[k].1);
            } else {
                assert(places[places.len() - 1] == places.last());
            }
        }
        assert(r.take(e.len() as int) =~= e) by {
            assert forall|k: int| 0 <= k < e.len() implies r[k] == e[k] by {
                assert(prev.take(e.len() as int)[k] == e[k]);
                assert(r[k] == prev[k]);
            }
        }
    }
}

proof fn lemma_with_defaults(e: RootsView, n: int, paths: CommonPaths, disk: DiskView)
    requires
        0 <= n <= 8,
    ensures
        with_defaults(e, n, paths, disk).len() >= e.len(),
        with_defaults(e, n, paths, disk).take(e.len() as int) == e,
        forall|k: int|
            e.len() <= k < with_defaults(e, n, paths, disk).len() ==> !has_app(e, (#[trigger] with_defaults(e, n, paths, disk)[k]).0)
                && installed_roots(
                with_defaults(e, n, paths, disk)[k].0,
                app_profile(with_defaults(e, n, paths, disk)[k].0).data_roots.len() as int,
                paths,
                disk,
            ).contains(with_defaults(e, n, paths, disk)[k].1),
    decreases n,
{
    if n > 0 {
        lemma_with_defaults(e, n - 1, paths, disk);
        let before = with_defaults(e, n - 1, paths, disk);
        let app = all_apps()[n - 1];
        if !has_app(before, app) {
            let inst = installed_roots(app, app_profile(app).data_roots.len() as int, paths, disk);
            lemma_push_all_unique(before, app, inst);
            let r = with_defaults(e, n, paths, disk);
            assert(!has_app(e, app)) by {
                if has_app(e, app) {
                    let k = choose|k: int| 0 <= k < e.len() && (#[trigger] e[k]).0 == app;
                    assert(before.take(e.len() as int)[k] == e[k]);
                    assert(before[k].0 == app);
                }
            }
            assert(r.take(e.len() as int) =~= e) by {
                assert forall|k: int| 0 <= k < e.len() implies r[k] == e[k] by {
                    assert(before.take(e.len() as int)[k] == e[k]);
                    assert(r.take(before.len() as int)[k] == before[k]);
                }
            }
            assert forall|k: int| e.len() <= k < r.len() implies !has_app(e, (#[trigger] r[k]).0)
                && installed_roots(r[k].0, app_profile(r[k].0).data_roots.len() as int, paths, disk).contains(r[k].1) by {
                if k < before.len() {
                    assert(r.take(before.len() as int)[k] == before[k]);
                }
            }
        }
    }
}

proof fn lemma_configured(roots: Seq<(Seq<char>, Option<App>)>, n: int, disk: DiskView)
    requires
        0 <= n <= roots.len(),
    ensures
        forall|k: int|
            0 <= k < configured(roots, n, disk).len() ==> {
                let x = #[trigger] configured(roots, n, disk)[k];
                &&& recognises(x.0, x.1, disk)
                &&& exists|i: int|
                    0 <= i < n && (#[trigger] roots[i]).0 == x.1 && (roots[i].1 == Some(x.0) || (roots[i].1 is None
                        && detected(roots[i].0, disk) == Some(x.0)))
            },
    decreases n,
{
    if n > 0 {
        lemma_configured(roots, n - 1, disk);
        let e = configured(roots, n - 1, disk);
        let c = configured(roots, n, disk);
        assert forall|k: int| 0 <= k < c.len() implies {
            let x = #[trigger] c[k];
            &&& recognises(x.0, x.1, disk)
            &&& exists|i: int|
                0 <= i < n && (#[trigger] roots[i]).0 == x.1 && (roots[i].1 == Some(x.0) || (roots[i].1 is None && detected(
                    roots[i].0,
                    disk,
                ) == Some(x.0)))
        } by {
            if k < e.len() {
                assert(c[k] == e[k]);
                let x = e[k];
                let i = choose|i: int|
                    0 <= i < n - 1 && (#[trigger] roots[i]).0 == x.1 && (roots[i].1 == Some(x.0) || (roots[i].1 is None
                        && detected(roots[i].0, disk) == Some(x.0)));
            } else {
                assert(roots[n - 1].0 == c[k].1);
            }
        }
    }
}

/// The emulator roots of this machine: first the configured roots, each kept only when the
/// emulator chosen for it, or the single one that recognises it, recognises it; then, for each
/// emulator no configured root gave, the defaults of this machine that hold its data. An
/// emulator with a configured root that does not match gets no default in its place.
pub proof fn configured_roots_come_first_and_defaults_fill_the_rest(
    roots: Seq<(Seq<char>, Option<App>)>,
    paths: CommonPaths,
    disk: DiskView,
)
    ensures
        ({
            let c = configured(roots, roots.len() as int, disk);
            let r = roots_for(roots, paths, disk);
            &&& r.len() >= c.len()
            &&& r.take(c.len() as int) == c
            &&& forall|k: int|
                0 <= k < c.len() ==> {
                    &&& recognises((#[trigger] r[k]).0, r[k].1, disk)
                    &&& exists|i: int|
                        0 <= i < roots.len() && (#[trigger] roots[i]).0 == r[k].1 && (roots[i].1 == Some(r[k].0) || (
                        roots[i].1 is None && detected(roots[i].0, disk) == Some(r[k].0)))
                }
            &&& forall|k: int|
                c.len() <= k < r.len() ==> !has_app(c, (#[trigger] r[k]).0) && installed_roots(
                    r[k].0,
                    app_profile(r[k].0).data_roots.len() as int,
                    paths,
                    disk,
                ).contains(r[k].1)
        }),
{
    let c = configured(roots, roots.len() as int, disk);
    let r = roots_for(roots, paths, disk);
    lemma_configured(roots, roots.len() as int, disk);
    lemma_with_defaults(c, 8, paths, disk);
    assert forall|k: int| 0 <= k < c.len() implies {
        &&& recognises((#[trigger] r[k]).0, r[k].1, disk)
        &&& exists|i: int|
            0 <= i < roots.len() && (#[trigger] roots[i]).0 == r[k].1 && (roots[i].1 == Some(r[k].0) || (roots[i].1 is None
                && detected(roots[i].0, disk) == Some(r[k].0)))
    } by {
        assert(r.take(c.len() as int)[k] == c[k]);
        assert(r[k] == c[k]);
    }
}


proof fn lemma_distinct_serials(s: Seq<CardEntryView>)
    ensures
        forall|i: int, j: int|
            0 <= i < j < distinct_serials(s).len() ==> (#[trigger] distinct_serials(s)[i]).1 != (
            #[trigger] distinct_serials(s)[j]).1,
        forall|k: int| 0 <= k < s.len() ==> exists|i: int| 0 <= i < distinct_serials(s).len() && (#[trigger] distinct_serials(s)[i]).1 == (#[trigger] s[k]).1,
        forall|i: int| 0 <= i < distinct_serials(s).len() ==> s.contains(#[trigger] distinct_serials(s)[i]),
    decreases s.len(),
{
    if s.len() > 0 {
        let p = s.drop_last();
        lemma_distinct_serials(p);
        let d = distinct_serials(p);
        let e = distinct_serials(s);
        assert forall|k: int| 0 <= k < s.len() implies exists|i: int| 0 <= i < e.len() && (#[trigger] e[i]).1 == (#[trigger] s[k]).1 by {
            if k < p.len() {
                assert(p[k] == s[k]);
                let i = choose|i: int| 0 <= i < d.len() && (#[trigger] d[i]).1 == (#[trigger] p[k]).1;
                assert(e[i] == d[i]);
            } else {
                if exists|x: int| 0 <= x < d.len() && (#[trigger] d[x]).1 == s.last().1 {
                    let x = choose|x: int| 0 <= x < d.len() && (#[trigger] d[x]).1 == s.last().1;
                    assert(e[x] == d[x]);
                } else {
                    assert(e[d.len() as int] == s.last());
                }
            }
        }
        assert forall|i: int| 0 <= i < e.len() implies s.contains(#[trigger] e[i]) by {
            if i < d.len() {
                assert(e[i] == d[i]);
                let w = choose|w: int| 0 <= w < p.len() && p[w] == d[i];
                assert(s[w] == p[w]);
            } else {
                assert(s[s.len() - 1] == e[i]);
            }
        }
    }
}

/// A memory card is the game of its saves when they all carry one media code, however many saves
/// of it the card holds; it is a shared card only when it holds at least two different codes, and
/// a card with no save is told by the file's name. The distinct codes of a card are each listed
/// once, and every code on the card is among them.
pub proof fn a_card_of_one_game_is_that_game(file: Seq<char>, contents: Option<Seq<u8>>)
    ensures
        ({
            let s = card_contents(contents);
            let d = distinct_serials(s);
            &&& forall|i: int, j: int| 0 <= i < j < d.len() ==> (#[trigger] d[i]).1 != (#[trigger] d[j]).1
            &&& forall|k: int| 0 <= k < s.len() ==> exists|i: int| 0 <= i < d.len() && (#[trigger] d[i]).1 == (#[trigger] s[k]).1
            &&& s.len() > 0 && (forall|k: int| 0 <= k < s.len() ==> (#[trigger] s[k]).1 == s[0].1) ==> identified(
                Identity::PsxCard,
                file,
                contents,
            ).0 == GameIdView::Media(s[0].1)
            &&& (exists|j: int, k: int| 0 <= j < s.len() && 0 <= k < s.len() && (#[trigger] s[j]).1 != (#[trigger] s[k]).1)
                ==> identified(Identity::PsxCard, file, contents).0 == GameIdView::SharedCard
            &&& s.len() == 0 ==> identified(Identity::PsxCard, file, contents).0 == GameIdView::Unidentified(file_stem_of(file))
        }),
{
    let s = card_contents(contents);
    let d = distinct_serials(s);
    lemma_distinct_serials(s);
    if s.len() > 0 && (forall|k: int| 0 <= k < s.len() ==> (#[trigger] s[k]).1 == s[0].1) {
        assert(s[0].1 == s[0].1);
        let i0 = choose|i: int| 0 <= i < d.len() && (#[trigger] d[i]).1 == s[0].1;
        assert forall|i: int| 0 <= i < d.len() implies (#[trigger] d[i]).1 == s[0].1 by {
            let w = choose|w: int| 0 <= w < s.len() && s[w] == d[i];
            assert(s[w].1 == s[0].1);
        }
        if d.len() > 1 {
            assert(d[0].1 == s[0].1 && d[1].1 == s[0].1);
        }
        assert(d.len() == 1);
    }
    if exists|j: int, k: int| 0 <= j < s.len() && 0 <= k < s.len() && (#[trigger] s[j]).1 != (#[trigger] s[k]).1 {
        let (j, k) = choose|j: int, k: int| 0 <= j < s.len() && 0 <= k < s.len() && (#[trigger] s[j]).1 != (#[trigger] s[k]).1;
        let a = choose|i: int| 0 <= i < d.len() && (#[trigger] d[i]).1 == s[j].1;
        let b = choose|i: int| 0 <= i < d.len() && (#[trigger] d[i]).1 == s[k].1;
        assert(a != b);
        assert(d.len() >= 2);
    }
    if s.len() == 0 {
        assert(d.len() == 0);
    }
}

} // verus!
