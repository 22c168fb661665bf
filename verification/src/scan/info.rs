//! What a scan learned about a game, as far as the filters and groups read it.
use vstd::prelude::*;

use crate::scan::layout::BackupSemantics;

verus! {

/// How a game's files compare with the last backup.
#[derive(Clone, Copy, Debug, PartialEq, Eq, Structural, Default)]
pub enum ScanChange {
    New,
    Different,
    Removed,
    Same,
    #[default]
    Unknown,
}

/// Whether a game's files are also claimed by another game.
#[derive(Clone, Copy, Debug, PartialEq, Eq, Structural, Default)]
pub enum Duplication {
    #[default]
    Unique,
    /// Duplicated, and the conflict was settled.
    Resolved,
    Duplicate,
}

impl Duplication {
    pub fn unique(&self) -> (r: bool)
        ensures
            r == (*self == Duplication::Unique),
    {
        match self {
            Duplication::Unique => true,
            _ => false,
        }
    }
}

/// What a scan found for one game.
#[derive(Clone, Debug, Default)]
pub struct ScanInfo {
    pub game_name: String,
    /// What the scan recorded about the folders the files came from.
    pub semantics: BackupSemantics,
    /// Some of the game's files were left out by the user.
    pub ignored: bool,
    /// The change of the game's files as a whole.
    pub change: ScanChange,
}

impl ScanInfo {
    pub fn any_ignored(&self) -> (r: bool)
        ensures
            r == self.ignored,
    {
        self.ignored
    }

    pub fn overall_change(&self) -> (r: ScanChange)
        ensures
            r == self.change,
    {
        self.change
    }
}

} // verus!
