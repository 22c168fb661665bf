//! What the game manifests say about a game, as far as this library reads it.
use vstd::prelude::*;

verus! {

/// A store or launcher that installs games.
///
/// The order of the variants is the order of the groups on screen.
#[derive(Clone, Copy, Debug, PartialEq, Eq, Structural, PartialOrd, Ord, Hash, Default)]
pub enum Store {
    Ea,
    Epic,
    Gog,
    GogGalaxy,
    Heroic,
    Legendary,
    Lutris,
    Microsoft,
    Origin,
    Prime,
    Steam,
    Uplay,
    OtherHome,
    OtherWine,
    OtherWindows,
    OtherLinux,
    OtherMac,
    #[default]
    Other,
    /// An emulator's data folder, configured as a root. It is no store at all.
    Emulator,
}

/// Where a store stands among the others: the order in which they are declared.
pub open spec fn store_rank(store: Store) -> int {
    match store {
        Store::Ea => 0,
        Store::Epic => 1,
        Store::Gog => 2,
        Store::GogGalaxy => 3,
        Store::Heroic => 4,
        Store::Legendary => 5,
        Store::Lutris => 6,
        Store::Microsoft => 7,
        Store::Origin => 8,
        Store::Prime => 9,
        Store::Steam => 10,
        Store::Uplay => 11,
        Store::OtherHome => 12,
        Store::OtherWine => 13,
        Store::OtherWindows => 14,
        Store::OtherLinux => 15,
        Store::OtherMac => 16,
        Store::Other => 17,
        Store::Emulator => 18,
    }
}

impl Store {
    /// Where this store stands among the others.
    pub(crate) fn rank(&self) -> (r: u8)
        ensures
            r == store_rank(*self),
    {
        match self {
            Store::Ea => 0,
            Store::Epic => 1,
            Store::Gog => 2,
            Store::GogGalaxy => 3,
            Store::Heroic => 4,
            Store::Legendary => 5,
            Store::Lutris => 6,
            Store::Microsoft => 7,
            Store::Origin => 8,
            Store::Prime => 9,
            Store::Steam => 10,
            Store::Uplay => 11,
            Store::OtherHome => 12,
            Store::OtherWine => 13,
            Store::OtherWindows => 14,
            Store::OtherLinux => 15,
            Store::OtherMac => 16,
            Store::Other => 17,
            Store::Emulator => 18,
        }
    }

    /// Every store, in the order that decides between two stores that both found a game.
    pub const ALL: [Store; 19] = [
        Store::Ea,
        Store::Epic,
        Store::Gog,
        Store::GogGalaxy,
        Store::Heroic,
        Store::Legendary,
        Store::Lutris,
        Store::Microsoft,
        Store::Origin,
        Store::Prime,
        Store::Steam,
        Store::Uplay,
        Store::OtherHome,
        Store::OtherWine,
        Store::OtherWindows,
        Store::OtherLinux,
        Store::OtherMac,
        Store::Other,
        Store::Emulator,
    ];
}

pub enum SourceView {
    Primary,
    Custom,
    Secondary(Seq<char>),
}

/// Where a game's entry comes from.
#[derive(Clone, Debug, PartialEq, Eq, PartialOrd, Ord, Hash, Default)]
pub enum Source {
    /// The public manifest.
    #[default]
    Primary,
    /// The user's own custom games.
    Custom,
    /// A secondary manifest, by its identifier.
    Secondary(String),
}

impl View for Source {
    type V = SourceView;

    open spec fn view(&self) -> SourceView {
        match self {
            Source::Primary => SourceView::Primary,
            Source::Custom => SourceView::Custom,
            Source::Secondary(id) => SourceView::Secondary(id@),
        }
    }
}

impl Source {
    /// Both name the same source.
    pub fn same_as(&self, other: &Source) -> (r: bool)
        ensures
            r == (self@ == other@),
    {
        match self {
            Source::Primary => match other {
                Source::Primary => true,
                Source::Custom => false,
                Source::Secondary(_) => false,
            },
            Source::Custom => match other {
                Source::Primary => false,
                Source::Custom => true,
                Source::Secondary(_) => false,
            },
            Source::Secondary(a) => match other {
                Source::Primary => false,
                Source::Custom => false,
                Source::Secondary(b) => {
                    let x: &String = a;
                    let y: &String = b;
                    x.eq(y)
                },
            },
        }
    }
}

/// A game's entry, as far as where it comes from.
#[derive(Clone, Debug, Default)]
pub struct Game {
    /// The manifests that list the game.
    pub sources: Vec<Source>,
}

impl View for Game {
    type V = Seq<SourceView>;

    open spec fn view(&self) -> Seq<SourceView> {
        self.sources@.map_values(|s: Source| s@)
    }
}

impl Game {
    /// The game is listed by this source.
    pub fn has_source(&self, source: &Source) -> (r: bool)
        ensures
            r == self@.contains(source@),
    {
        let mut i: usize = 0;
        while i < self.sources.len()
            invariant
                i <= self.sources.len(),
                forall|k: int| 0 <= k < i ==> self@[k] != source@,
            decreases self.sources.len() - i,
        {
            assert(self@[i as int] == self.sources@[i as int]@);
            if self.sources[i].same_as(source) {
                assert(self@[i as int] == source@);
                return true;
            }
            i = i + 1;
        }
        false
    }
}

} // verus!
