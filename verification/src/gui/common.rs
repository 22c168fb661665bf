//! The messages the controls send and the state they read.
use vstd::prelude::*;

use crate::scan::emulator::App;
use crate::scan::game_filter;

verus! {

/// An edit to a list of the settings.
#[derive(Clone, Debug, PartialEq, Eq)]
pub enum EditAction {
    Add,
    Change(usize, String),
    Remove(usize),
    Move(usize, EditDirection),
}

#[derive(Clone, Copy, Debug, PartialEq, Eq, Structural)]
pub enum EditDirection {
    Up,
    Down,
}

impl EditAction {
    pub fn move_up(index: usize) -> (r: EditAction)
        ensures
            r == EditAction::Move(index, EditDirection::Up),
    {
        EditAction::Move(index, EditDirection::Up)
    }

    pub fn move_down(index: usize) -> (r: EditAction)
        ensures
            r == EditAction::Move(index, EditDirection::Down),
    {
        EditAction::Move(index, EditDirection::Down)
    }
}

/// Whether an operation only looks or also writes.
#[derive(Clone, Copy, Debug, PartialEq, Eq, Structural)]
pub enum Finality {
    Preview,
    Final,
}

#[derive(Clone, Copy, Debug, PartialEq, Eq, Structural)]
pub enum SyncDirection {
    Upload,
    Download,
}

#[derive(Clone, Copy, Debug, PartialEq, Eq, Structural)]
pub enum ScanKind {
    Backup,
    Restore,
}

/// What is running now, as far as the controls read it.
#[derive(Clone, Copy, Debug, PartialEq, Eq, Structural, Default)]
pub enum Operation {
    #[default]
    Idle,
    Backup { finality: Finality, cancelling: bool },
    Restore { finality: Finality, cancelling: bool },
    ValidateBackups { cancelling: bool },
    Cloud { direction: SyncDirection, cancelling: bool },
}

impl Operation {
    pub fn idle(&self) -> (r: bool)
        ensures
            r == (*self == Operation::Idle),
    {
        match self {
            Operation::Idle => true,
            _ => false,
        }
    }
}

#[derive(Clone, Debug, PartialEq, Eq)]
pub enum BackupPhase {
    Start { preview: bool, repair: bool, jump: bool, games: Option<Vec<String>> },
    Confirm { games: Option<Vec<String>> },
}

#[derive(Clone, Debug, PartialEq, Eq)]
pub enum RestorePhase {
    Start { preview: bool, games: Option<Vec<String>> },
    Confirm { games: Option<Vec<String>> },
}

#[derive(Clone, Copy, Debug, PartialEq, Eq, Structural)]
pub enum ValidatePhase {
    Start,
}

/// The screens of the application.
#[derive(Clone, Copy, Debug, PartialEq, Eq, Structural, Default)]
pub enum Screen {
    #[default]
    Backup,
    Restore,
    CustomGames,
    Emulators,
    Logs,
    Other,
}

/// A change to the configuration.
#[derive(Clone, Debug, PartialEq, Eq)]
pub enum ConfigEvent {
    CustomGame(EditAction),
    AddEmulatorRoot(App),
}

/// A note the manifest carries about a game.
#[derive(Clone, Debug, PartialEq, Eq)]
pub struct Note {
    pub message: String,
}

/// What pressing a control asks the application to do.
#[derive(Clone, Debug, PartialEq)]
pub enum Message {
    Filter { event: game_filter::Event },
    CancelOperation,
    Backup(BackupPhase),
    Restore(RestorePhase),
    ValidateBackups(ValidatePhase),
    Config { event: ConfigEvent },
    SelectAllGames,
    DeselectAllGames,
    UpdateApp,
    RefreshEmulators,
    OpenUrl(String),
    ConfirmSynchronizeCloud { direction: SyncDirection },
    ShowGameNotes { game: String, notes: Vec<Note> },
    SwitchScreen(Screen),
}

} // verus!
