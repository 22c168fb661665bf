//! What each button of the screens shows, what pressing it sends, and how it is styled.
//!
//! A [`Control`] is the whole decision; drawing it is the toolkit's business. A control with no
//! action is shown disabled.
use vstd::prelude::*;

use crate::gui::common::{
    BackupPhase, ConfigEvent, EditAction, Finality, Message, Note, Operation, RestorePhase, ScanKind, Screen,
    SyncDirection, ValidatePhase,
};
use crate::gui::icon::Icon;
use crate::gui::style;
use crate::scan::emulator::App;
use crate::scan::game_filter;

verus! {

/// A phrase of the interface, translated where it is shown.
#[derive(Clone, Copy, Debug, PartialEq, Eq, Structural)]
pub enum Phrase {
    SortButton,
    CancelButton,
    CancellingButton,
    RescanButton,
    ScanButton,
    BackupButton,
    RestoreButton,
    ValidateButton,
    NothingToBackUpTooltip,
    OperationWillOnlyIncludeListedGames,
    DisableAllButton,
    EnableAllButton,
    AddGameButton,
    AddEmulatorFolderButton,
    CheckForUpdateButton,
    RecheckEmulatorsButton,
    NavBackupButton,
    NavRestoreButton,
    NavCustomGamesButton,
    NavEmulatorsButton,
    NavLogsButton,
    NavSettingsButton,
}

/// Text on a control: a phrase of the interface, or a text given by the caller.
#[derive(Clone, Debug, PartialEq, Eq)]
pub enum Caption {
    Phrase(Phrase),
    Text(String),
}

/// How large an icon is drawn.
#[derive(Clone, Copy, Debug, PartialEq, Eq, Structural)]
pub enum IconSize {
    Regular,
    Small,
    Narrow,
}

/// What a control shows.
#[derive(Clone, Debug, PartialEq, Eq)]
pub enum Label {
    Icon(Icon, IconSize),
    Caption(Caption),
    /// An icon before a caption.
    Both(Icon, Caption),
}

/// How wide a control is.
#[derive(Clone, Copy, Debug, PartialEq, Eq, Structural)]
pub enum Width {
    /// As wide as its content.
    Content,
    /// The fixed width of a form's buttons.
    Fixed,
    /// As wide as the column it sits in.
    Fill,
}

/// A button, decided.
#[derive(Clone, Debug, PartialEq)]
pub struct Control {
    pub label: Label,
    /// What pressing it sends. `None` shows it disabled.
    pub action: Option<Message>,
    /// Its class; `None` takes the default class, which is **Secondary**: the primary action of a
    /// screen has to be named where it is made.
    pub style: Option<style::Button>,
    pub tooltip: Option<Caption>,
    pub width: Width,
}

pub open spec fn control(label: Label, action: Option<Message>, style: Option<style::Button>) -> Control {
    Control { label, action, style, tooltip: None, width: Width::Content }
}

fn make(label: Label, action: Option<Message>, style: Option<style::Button>) -> (r: Control)
    ensures
        r == control(label, action, style),
{
    Control { label, action, style, tooltip: None, width: Width::Content }
}

pub fn primary(content: String, action: Option<Message>) -> (r: Control)
    ensures
        r == (Control {
            label: Label::Caption(Caption::Text(content)),
            action,
            style: Some(style::Button::Primary),
            tooltip: None,
            width: Width::Fixed,
        }),
{
    Control {
        label: Label::Caption(Caption::Text(content)),
        action,
        style: Some(style::Button::Primary),
        tooltip: None,
        width: Width::Fixed,
    }
}

pub fn negative(content: String, action: Option<Message>) -> (r: Control)
    ensures
        r == (Control {
            label: Label::Caption(Caption::Text(content)),
            action,
            style: Some(style::Button::Negative),
            tooltip: None,
            width: Width::Fixed,
        }),
{
    Control {
        label: Label::Caption(Caption::Text(content)),
        action,
        style: Some(style::Button::Negative),
        tooltip: None,
        width: Width::Fixed,
    }
}

/// Adding a row to a list inside a form. Secondary, not primary: a settings screen has no
/// primary action, everything on it is a supporting control.
pub fn add<F: Fn(EditAction) -> Message>(action: F) -> (r: Control)
    requires
        call_requires(action, (EditAction::Add,)),
    ensures
        r.label == Label::Icon(Icon::AddCircle, IconSize::Regular),
        r.action matches Some(m) && call_ensures(action, (EditAction::Add,), m),
        r.style == Some(style::Button::Secondary),
        r.tooltip is None,
        r.width == Width::Content,
{
    let m = action(EditAction::Add);
    make(Label::Icon(Icon::AddCircle, IconSize::Regular), Some(m), Some(style::Button::Secondary))
}

pub fn add_nested<F: Fn(usize, EditAction) -> Message>(action: F, parent: usize) -> (r: Control)
    requires
        call_requires(action, (parent, EditAction::Add)),
    ensures
        r.label == Label::Icon(Icon::AddCircle, IconSize::Regular),
        r.action matches Some(m) && call_ensures(action, (parent, EditAction::Add), m),
        r.style == Some(style::Button::Secondary),
        r.tooltip is None,
        r.width == Width::Content,
{
    let m = action(parent, EditAction::Add);
    make(Label::Icon(Icon::AddCircle, IconSize::Regular), Some(m), Some(style::Button::Secondary))
}

pub fn remove<F: Fn(EditAction) -> Message>(action: F, index: usize) -> (r: Control)
    requires
        call_requires(action, (EditAction::Remove(index),)),
    ensures
        r.label == Label::Icon(Icon::RemoveCircle, IconSize::Regular),
        r.action matches Some(m) && call_ensures(action, (EditAction::Remove(index),), m),
        r.style == Some(style::Button::Danger),
        r.tooltip is None,
        r.width == Width::Content,
{
    let m = action(EditAction::Remove(index));
    make(Label::Icon(Icon::RemoveCircle, IconSize::Regular), Some(m), Some(style::Button::Danger))
}

pub fn remove_nested<F: Fn(usize, EditAction) -> Message>(action: F, parent: usize, index: usize) -> (r: Control)
    requires
        call_requires(action, (parent, EditAction::Remove(index))),
    ensures
        r.label == Label::Icon(Icon::RemoveCircle, IconSize::Regular),
        r.action matches Some(m) && call_ensures(action, (parent, EditAction::Remove(index)), m),
        r.style == Some(style::Button::Danger),
        r.tooltip is None,
        r.width == Width::Content,
{
    let m = action(parent, EditAction::Remove(index));
    make(Label::Icon(Icon::RemoveCircle, IconSize::Regular), Some(m), Some(style::Button::Danger))
}

pub fn delete<F: Fn(EditAction) -> Message>(action: F, index: usize) -> (r: Control)
    requires
        call_requires(action, (EditAction::Remove(index),)),
    ensures
        r.label == Label::Icon(Icon::Delete, IconSize::Regular),
        r.action matches Some(m) && call_ensures(action, (EditAction::Remove(index),), m),
        r.style == Some(style::Button::Danger),
        r.tooltip is None,
        r.width == Width::Content,
{
    let m = action(EditAction::Remove(index));
    make(Label::Icon(Icon::Delete, IconSize::Regular), Some(m), Some(style::Button::Danger))
}

/// Hiding an item from a list.
pub fn hide_item(action: Message) -> (r: Control)
    ensures
        r == control(Label::Icon(Icon::VisibilityOff, IconSize::Small), Some(action), None),
{
    make(Label::Icon(Icon::VisibilityOff, IconSize::Small), Some(action), None)
}

/// A bar button that is not the primary action: outlined, and only as wide as its label.
pub fn secondary(content: String, action: Option<Message>, tooltip: Option<String>) -> (r: Control)
    ensures
        r == (Control {
            label: Label::Caption(Caption::Text(content)),
            action,
            style: Some(style::Button::Secondary),
            tooltip: match tooltip {
                Some(t) => Some(Caption::Text(t)),
                None => None,
            },
            width: Width::Content,
        }),
{
    Control {
        label: Label::Caption(Caption::Text(content)),
        action,
        style: Some(style::Button::Secondary),
        tooltip: match tooltip {
            Some(t) => Some(Caption::Text(t)),
            None => None,
        },
        width: Width::Content,
    }
}

pub open spec fn bar(label: Caption, action: Option<Message>, style: style::Button, tooltip: Option<Caption>) -> Control {
    Control { label: Label::Caption(label), action, style: Some(style), tooltip, width: Width::Content }
}

/// The primary action of the bar: filled, and as wide as its label.
pub fn primary_bar(content: String, action: Option<Message>, tooltip: Option<String>) -> (r: Control)
    ensures
        r == bar(
            Caption::Text(content),
            action,
            style::Button::Primary,
            match tooltip {
                Some(t) => Some(Caption::Text(t)),
                None => None,
            },
        ),
{
    Control {
        label: Label::Caption(Caption::Text(content)),
        action,
        style: Some(style::Button::Primary),
        tooltip: match tooltip {
            Some(t) => Some(Caption::Text(t)),
            None => None,
        },
        width: Width::Content,
    }
}

/// An icon button in the command bar; an active one is drawn as the thing to stop.
pub fn bar_icon(icon: Icon, action: Option<Message>, active: bool, tooltip: Option<String>) -> (r: Control)
    ensures
        r == (Control {
            label: Label::Icon(icon, IconSize::Narrow),
            action,
            style: Some(if active { style::Button::Negative } else { style::Button::Secondary }),
            tooltip: match tooltip {
                Some(t) => Some(Caption::Text(t)),
                None => None,
            },
            width: Width::Content,
        }),
{
    Control {
        label: Label::Icon(icon, IconSize::Narrow),
        action,
        style: Some(if active { style::Button::Negative } else { style::Button::Secondary }),
        tooltip: match tooltip {
            Some(t) => Some(Caption::Text(t)),
            None => None,
        },
        width: Width::Content,
    }
}

/// A preview of this kind is being cancelled.
pub open spec fn preview_cancelling(ongoing: Operation) -> bool {
    ongoing matches Operation::Backup { finality: Finality::Preview, cancelling: true }
        || ongoing matches Operation::Restore { finality: Finality::Preview, cancelling: true }
}

/// A preview is running.
pub open spec fn preview_running(ongoing: Operation) -> bool {
    ongoing matches Operation::Backup { finality: Finality::Preview, cancelling: false }
        || ongoing matches Operation::Restore { finality: Finality::Preview, cancelling: false }
}

pub open spec fn scan_start(kind: ScanKind) -> Message {
    match kind {
        ScanKind::Backup => Message::Backup(BackupPhase::Start { preview: true, repair: false, jump: false, games: None }),
        ScanKind::Restore => Message::Restore(RestorePhase::Start { preview: true, games: None }),
    }
}

pub open spec fn scan_control(ongoing: Operation, kind: ScanKind, scanned: bool) -> Control {
    let cancelling = preview_cancelling(ongoing);
    let scanning = preview_running(ongoing);
    let label = if cancelling {
        Phrase::CancellingButton
    } else if scanning {
        Phrase::CancelButton
    } else if scanned {
        Phrase::RescanButton
    } else {
        Phrase::ScanButton
    };
    let action = if scanning {
        Some(Message::CancelOperation)
    } else if ongoing == Operation::Idle {
        Some(scan_start(kind))
    } else {
        None
    };
    let style = if !scanned && !scanning && !cancelling {
        style::Button::Primary
    } else if scanning || cancelling {
        style::Button::Negative
    } else {
        style::Button::Secondary
    };
    bar(Caption::Phrase(label), action, style, None)
}

/// Finding the games. It is the same message in every state; only the word and the weight change,
/// because before the first scan there is nothing to preview and "Preview" would be a lie.
///
/// Before the first scan it IS the main action, and so it comes filled.
pub fn scan(ongoing: &Operation, scan_kind: ScanKind, scanned: bool) -> (r: Control)
    ensures
        r == scan_control(*ongoing, scan_kind, scanned),
{
    let cancelling = match ongoing {
        Operation::Backup { finality: Finality::Preview, cancelling: true } => true,
        Operation::Restore { finality: Finality::Preview, cancelling: true } => true,
        _ => false,
    };
    let scanning = match ongoing {
        Operation::Backup { finality: Finality::Preview, cancelling: false } => true,
        Operation::Restore { finality: Finality::Preview, cancelling: false } => true,
        _ => false,
    };
    let label = if cancelling {
        Phrase::CancellingButton
    } else if scanning {
        Phrase::CancelButton
    } else if scanned {
        Phrase::RescanButton
    } else {
        Phrase::ScanButton
    };
    let action = if scanning {
        Some(Message::CancelOperation)
    } else if ongoing.idle() {
        Some(match scan_kind {
            ScanKind::Backup => Message::Backup(BackupPhase::Start { preview: true, repair: false, jump: false, games: None }),
            ScanKind::Restore => Message::Restore(RestorePhase::Start { preview: true, games: None }),
        })
    } else {
        None
    };
    let style = if !scanned && !scanning && !cancelling {
        style::Button::Primary
    } else if scanning || cancelling {
        style::Button::Negative
    } else {
        style::Button::Secondary
    };
    Control { label: Label::Caption(Caption::Phrase(label)), action, style: Some(style), tooltip: None, width: Width::Content }
}

pub open spec fn backup_main_control(ongoing: Operation, filtered: bool, has_changes: bool) -> Control {
    if ongoing == (Operation::Backup { finality: Finality::Final, cancelling: true }) {
        bar(Caption::Phrase(Phrase::CancellingButton), None, style::Button::Primary, None)
    } else if ongoing == (Operation::Backup { finality: Finality::Final, cancelling: false }) {
        bar(Caption::Phrase(Phrase::CancelButton), Some(Message::CancelOperation), style::Button::Negative, None)
    } else {
        bar(
            Caption::Phrase(Phrase::BackupButton),
            if ongoing == Operation::Idle && has_changes {
                Some(Message::Backup(BackupPhase::Confirm { games: None }))
            } else {
                None
            },
            style::Button::Primary,
            if !has_changes {
                Some(Caption::Phrase(Phrase::NothingToBackUpTooltip))
            } else if filtered {
                Some(Caption::Phrase(Phrase::OperationWillOnlyIncludeListedGames))
            } else {
                None
            },
        )
    }
}

/// The primary action of the backup bar.
///
/// Presence and availability are different questions, and collapsing them is what produced the
/// button that offered to back up nothing. It is present and disabled when the scan found nothing
/// new, because there is a set and no delta, and hiding it there would make the bar jump on every
/// scan.
pub fn backup_main(ongoing: &Operation, filtered: bool, has_changes: bool) -> (r: Control)
    ensures
        r == backup_main_control(*ongoing, filtered, has_changes),
        // It never offers to back up when nothing changed.
        !has_changes ==> r.action != Some(Message::Backup(BackupPhase::Confirm { games: None })),
{
    match ongoing {
        Operation::Backup { finality: Finality::Final, cancelling: true } => {
            return Control {
                label: Label::Caption(Caption::Phrase(Phrase::CancellingButton)),
                action: None,
                style: Some(style::Button::Primary),
                tooltip: None,
                width: Width::Content,
            };
        },
        Operation::Backup { finality: Finality::Final, cancelling: false } => {
            return Control {
                label: Label::Caption(Caption::Phrase(Phrase::CancelButton)),
                action: Some(Message::CancelOperation),
                style: Some(style::Button::Negative),
                tooltip: None,
                width: Width::Content,
            };
        },
        _ => {},
    }
    let enabled = ongoing.idle() && has_changes;
    Control {
        label: Label::Caption(Caption::Phrase(Phrase::BackupButton)),
        action: if enabled {
            Some(Message::Backup(BackupPhase::Confirm { games: None }))
        } else {
            None
        },
        style: Some(style::Button::Primary),
        tooltip: if !has_changes {
            Some(Caption::Phrase(Phrase::NothingToBackUpTooltip))
        } else if filtered {
            Some(Caption::Phrase(Phrase::OperationWillOnlyIncludeListedGames))
        } else {
            None
        },
        width: Width::Content,
    }
}

pub open spec fn restore_main_control(ongoing: Operation, filtered: bool) -> Control {
    if ongoing == (Operation::Restore { finality: Finality::Final, cancelling: true }) {
        bar(Caption::Phrase(Phrase::CancellingButton), None, style::Button::Primary, None)
    } else if ongoing == (Operation::Restore { finality: Finality::Final, cancelling: false }) {
        bar(Caption::Phrase(Phrase::CancelButton), Some(Message::CancelOperation), style::Button::Negative, None)
    } else {
        bar(
            Caption::Phrase(Phrase::RestoreButton),
            if ongoing == Operation::Idle {
                Some(Message::Restore(RestorePhase::Confirm { games: None }))
            } else {
                None
            },
            style::Button::Primary,
            if filtered {
                Some(Caption::Phrase(Phrase::OperationWillOnlyIncludeListedGames))
            } else {
                None
            },
        )
    }
}

/// The primary action of the restore bar.
///
/// It has no "nothing changed" state on purpose: restoring a backup that matches what is on disk
/// is a legitimate operation, and it is how a local overwrite gets undone.
pub fn restore_main(ongoing: &Operation, filtered: bool) -> (r: Control)
    ensures
        r == restore_main_control(*ongoing, filtered),
{
    match ongoing {
        Operation::Restore { finality: Finality::Final, cancelling: true } => {
            return Control {
                label: Label::Caption(Caption::Phrase(Phrase::CancellingButton)),
                action: None,
                style: Some(style::Button::Primary),
                tooltip: None,
                width: Width::Content,
            };
        },
        Operation::Restore { finality: Finality::Final, cancelling: false } => {
            return Control {
                label: Label::Caption(Caption::Phrase(Phrase::CancelButton)),
                action: Some(Message::CancelOperation),
                style: Some(style::Button::Negative),
                tooltip: None,
                width: Width::Content,
            };
        },
        _ => {},
    }
    Control {
        label: Label::Caption(Caption::Phrase(Phrase::RestoreButton)),
        action: if ongoing.idle() {
            Some(Message::Restore(RestorePhase::Confirm { games: None }))
        } else {
            None
        },
        style: Some(style::Button::Primary),
        tooltip: if filtered {
            Some(Caption::Phrase(Phrase::OperationWillOnlyIncludeListedGames))
        } else {
            None
        },
        width: Width::Content,
    }
}

pub fn filter(open: bool) -> (r: Control)
    ensures
        r == control(
            Label::Icon(Icon::Filter, IconSize::Regular),
            Some(Message::Filter { event: game_filter::Event::Toggled }),
            if open { Some(style::Button::Negative) } else { None },
        ),
{
    make(
        Label::Icon(Icon::Filter, IconSize::Regular),
        Some(Message::Filter { event: game_filter::Event::Toggled }),
        if open { Some(style::Button::Negative) } else { None },
    )
}

/// Clearing a filter is not destructive, so it is not styled as destruction.
pub fn reset_filter(dirty: bool) -> (r: Control)
    ensures
        r == control(
            Label::Icon(Icon::RemoveCircle, IconSize::Regular),
            if dirty { Some(Message::Filter { event: game_filter::Event::Reset }) } else { None },
            None,
        ),
{
    make(
        Label::Icon(Icon::RemoveCircle, IconSize::Regular),
        if dirty { Some(Message::Filter { event: game_filter::Event::Reset }) } else { None },
        None,
    )
}

pub fn sort(message: Message) -> (r: Control)
    ensures
        r == (Control {
            label: Label::Caption(Caption::Phrase(Phrase::SortButton)),
            action: Some(message),
            style: None,
            tooltip: None,
            width: Width::Fixed,
        }),
{
    Control {
        label: Label::Caption(Caption::Phrase(Phrase::SortButton)),
        action: Some(message),
        style: None,
        tooltip: None,
        width: Width::Fixed,
    }
}

pub fn refresh(action: Message, ongoing: bool) -> (r: Control)
    ensures
        r == control(Label::Icon(Icon::Refresh, IconSize::Regular), if !ongoing { Some(action) } else { None }, None),
{
    make(Label::Icon(Icon::Refresh, IconSize::Regular), if !ongoing { Some(action) } else { None }, None)
}

pub fn refresh_custom_game(action: Message, ongoing: bool, enabled: bool) -> (r: Control)
    ensures
        r == control(
            Label::Icon(Icon::Refresh, IconSize::Regular),
            if !ongoing && enabled { Some(action) } else { None },
            None,
        ),
{
    make(Label::Icon(Icon::Refresh, IconSize::Regular), if !ongoing && enabled { Some(action) } else { None }, None)
}

pub fn search(action: Message) -> (r: Control)
    ensures
        r == control(Label::Icon(Icon::Search, IconSize::Regular), Some(action), None),
{
    make(Label::Icon(Icon::Search, IconSize::Regular), Some(action), None)
}

/// Moving a row up, which the first row cannot.
pub fn move_up<F: Fn(EditAction) -> Message>(action: F, index: usize) -> (r: Control)
    requires
        index > 0 ==> call_requires(action, (EditAction::Move(index, crate::gui::common::EditDirection::Up),)),
    ensures
        r.label == Label::Icon(Icon::ArrowUpward, IconSize::Small),
        r.action is Some <==> index > 0,
        r.action matches Some(m) ==> call_ensures(action, (EditAction::Move(index, crate::gui::common::EditDirection::Up),), m),
        r.style is None,
        r.tooltip is None,
        r.width == Width::Content,
{
    let m = if index > 0 {
        Some(action(EditAction::move_up(index)))
    } else {
        None
    };
    make(Label::Icon(Icon::ArrowUpward, IconSize::Small), m, None)
}

pub fn move_up_maybe<F: Fn(EditAction) -> Message>(action: F, index: usize, enabled: bool) -> (r: Control)
    requires
        enabled && index > 0 ==> call_requires(action, (EditAction::Move(index, crate::gui::common::EditDirection::Up),)),
    ensures
        r.label == Label::Icon(Icon::ArrowUpward, IconSize::Small),
        r.action is Some <==> enabled && index > 0,
        r.action matches Some(m) ==> call_ensures(action, (EditAction::Move(index, crate::gui::common::EditDirection::Up),), m),
        r.style is None,
        r.tooltip is None,
        r.width == Width::Content,
{
    let m = if enabled && index > 0 {
        Some(action(EditAction::move_up(index)))
    } else {
        None
    };
    make(Label::Icon(Icon::ArrowUpward, IconSize::Small), m, None)
}

pub fn move_up_nested<F: Fn(usize, EditAction) -> Message>(action: F, parent: usize, index: usize) -> (r: Control)
    requires
        index > 0 ==> call_requires(action, (parent, EditAction::Move(index, crate::gui::common::EditDirection::Up))),
    ensures
        r.label == Label::Icon(Icon::ArrowUpward, IconSize::Small),
        r.action is Some <==> index > 0,
        r.action matches Some(m) ==> call_ensures(
            action,
            (parent, EditAction::Move(index, crate::gui::common::EditDirection::Up)),
            m,
        ),
        r.style is None,
        r.tooltip is None,
        r.width == Width::Content,
{
    let m = if index > 0 {
        Some(action(parent, EditAction::move_up(index)))
    } else {
        None
    };
    make(Label::Icon(Icon::ArrowUpward, IconSize::Small), m, None)
}

/// Moving a row down, which the last of `max` rows cannot.
pub fn move_down<F: Fn(EditAction) -> Message>(action: F, index: usize, max: usize) -> (r: Control)
    requires
        max > 0,
        index < max - 1 ==> call_requires(action, (EditAction::Move(index, crate::gui::common::EditDirection::Down),)),
    ensures
        r.label == Label::Icon(Icon::ArrowDownward, IconSize::Small),
        r.action is Some <==> index < max - 1,
        r.action matches Some(m) ==> call_ensures(action, (EditAction::Move(index, crate::gui::common::EditDirection::Down),), m),
        r.style is None,
        r.tooltip is None,
        r.width == Width::Content,
{
    let m = if index < max - 1 {
        Some(action(EditAction::move_down(index)))
    } else {
        None
    };
    make(Label::Icon(Icon::ArrowDownward, IconSize::Small), m, None)
}

pub fn move_down_maybe<F: Fn(EditAction) -> Message>(action: F, index: usize, max: usize, enabled: bool) -> (r: Control)
    requires
        max > 0,
        enabled && index < max - 1 ==> call_requires(
            action,
            (EditAction::Move(index, crate::gui::common::EditDirection::Down),),
        ),
    ensures
        r.label == Label::Icon(Icon::ArrowDownward, IconSize::Small),
        r.action is Some <==> enabled && index < max - 1,
        r.action matches Some(m) ==> call_ensures(action, (EditAction::Move(index, crate::gui::common::EditDirection::Down),), m),
        r.style is None,
        r.tooltip is None,
        r.width == Width::Content,
{
    let m = if enabled && index < max - 1 {
        Some(action(EditAction::move_down(index)))
    } else {
        None
    };
    make(Label::Icon(Icon::ArrowDownward, IconSize::Small), m, None)
}

pub fn move_down_nested<F: Fn(usize, EditAction) -> Message>(action: F, parent: usize, index: usize, max: usize) -> (r: Control)
    requires
        max > 0,
        index < max - 1 ==> call_requires(
            action,
            (parent, EditAction::Move(index, crate::gui::common::EditDirection::Down)),
        ),
    ensures
        r.label == Label::Icon(Icon::ArrowDownward, IconSize::Small),
        r.action is Some <==> index < max - 1,
        r.action matches Some(m) ==> call_ensures(
            action,
            (parent, EditAction::Move(index, crate::gui::common::EditDirection::Down)),
            m,
        ),
        r.style is None,
        r.tooltip is None,
        r.width == Width::Content,
{
    let m = if index < max - 1 {
        Some(action(parent, EditAction::move_down(index)))
    } else {
        None
    };
    make(Label::Icon(Icon::ArrowDownward, IconSize::Small), m, None)
}

/// The next page, while there is one.
pub fn next_page<F: Fn(usize) -> Message>(action: F, page: usize, pages: usize) -> (r: Control)
    requires
        page < pages ==> call_requires(action, ((page + 1) as usize,)),
    ensures
        r.label == Label::Icon(Icon::ArrowForward, IconSize::Regular),
        r.action is Some <==> page < pages,
        r.action matches Some(m) ==> call_ensures(action, ((page + 1) as usize,), m),
        r.style is None,
        r.tooltip is None,
        r.width == Width::Content,
{
    let m = if page < pages {
        Some(action(page + 1))
    } else {
        None
    };
    make(Label::Icon(Icon::ArrowForward, IconSize::Regular), m, None)
}

/// The previous page, unless this is the first.
pub fn previous_page<F: Fn(usize) -> Message>(action: F, page: usize) -> (r: Control)
    requires
        page > 0 ==> call_requires(action, ((page - 1) as usize,)),
    ensures
        r.label == Label::Icon(Icon::ArrowBack, IconSize::Regular),
        r.action is Some <==> page > 0,
        r.action matches Some(m) ==> call_ensures(action, ((page - 1) as usize,), m),
        r.style is None,
        r.tooltip is None,
        r.width == Width::Content,
{
    let m = if page > 0 {
        Some(action(page - 1))
    } else {
        None
    };
    make(Label::Icon(Icon::ArrowBack, IconSize::Regular), m, None)
}

/// Enabling or disabling every custom game; when the list is filtered, it says that only the
/// listed games are touched.
pub fn toggle_all_custom_games(all_enabled: bool, filtered: bool) -> (r: Control)
    ensures
        r == (Control {
            label: if filtered {
                Label::Both(
                    Icon::Filter,
                    Caption::Phrase(if all_enabled { Phrase::DisableAllButton } else { Phrase::EnableAllButton }),
                )
            } else {
                Label::Caption(Caption::Phrase(if all_enabled { Phrase::DisableAllButton } else { Phrase::EnableAllButton }))
            },
            action: Some(if all_enabled { Message::DeselectAllGames } else { Message::SelectAllGames }),
            style: None,
            tooltip: if filtered { Some(Caption::Phrase(Phrase::OperationWillOnlyIncludeListedGames)) } else { None },
            width: Width::Fixed,
        }),
{
    let phrase = if all_enabled { Phrase::DisableAllButton } else { Phrase::EnableAllButton };
    Control {
        label: if filtered {
            Label::Both(Icon::Filter, Caption::Phrase(phrase))
        } else {
            Label::Caption(Caption::Phrase(phrase))
        },
        action: Some(if all_enabled { Message::DeselectAllGames } else { Message::SelectAllGames }),
        style: None,
        tooltip: if filtered { Some(Caption::Phrase(Phrase::OperationWillOnlyIncludeListedGames)) } else { None },
        width: Width::Fixed,
    }
}

/// The one action that leads the custom games screen, so it is the one filled button on it.
pub fn add_game() -> (r: Control)
    ensures
        r == control(
            Label::Caption(Caption::Phrase(Phrase::AddGameButton)),
            Some(Message::Config { event: ConfigEvent::CustomGame(EditAction::Add) }),
            Some(style::Button::Primary),
        ),
{
    make(
        Label::Caption(Caption::Phrase(Phrase::AddGameButton)),
        Some(Message::Config { event: ConfigEvent::CustomGame(EditAction::Add) }),
        Some(style::Button::Primary),
    )
}

/// Secondary, and deliberately so: there are eight of these on the screen at once.
pub fn add_emulator_root(app: App) -> (r: Control)
    ensures
        r == control(
            Label::Caption(Caption::Phrase(Phrase::AddEmulatorFolderButton)),
            Some(Message::Config { event: ConfigEvent::AddEmulatorRoot(app) }),
            Some(style::Button::Secondary),
        ),
{
    make(
        Label::Caption(Caption::Phrase(Phrase::AddEmulatorFolderButton)),
        Some(Message::Config { event: ConfigEvent::AddEmulatorRoot(app) }),
        Some(style::Button::Secondary),
    )
}

/// Checks for and installs the update in one click.
///
/// It is disabled while the update runs, so that two downloads never touch the same file at once.
pub fn check_for_update(updating: &bool) -> (r: Control)
    ensures
        r == control(
            Label::Caption(Caption::Phrase(Phrase::CheckForUpdateButton)),
            if !*updating { Some(Message::UpdateApp) } else { None },
            None,
        ),
{
    make(
        Label::Caption(Caption::Phrase(Phrase::CheckForUpdateButton)),
        if !*updating { Some(Message::UpdateApp) } else { None },
        None,
    )
}

/// The one action that leads the emulators screen, so it is the one filled button on it. It
/// carries its label: as a bare icon it did not say what pressing it would do.
pub fn refresh_emulators() -> (r: Control)
    ensures
        r == control(
            Label::Both(Icon::Refresh, Caption::Phrase(Phrase::RecheckEmulatorsButton)),
            Some(Message::RefreshEmulators),
            Some(style::Button::Primary),
        ),
{
    make(
        Label::Both(Icon::Refresh, Caption::Phrase(Phrase::RecheckEmulatorsButton)),
        Some(Message::RefreshEmulators),
        Some(style::Button::Primary),
    )
}

pub fn open_url(label: String, url: String) -> (r: Control)
    ensures
        r == (Control {
            label: Label::Caption(Caption::Text(label)),
            action: Some(Message::OpenUrl(url)),
            style: None,
            tooltip: None,
            width: Width::Fixed,
        }),
{
    Control {
        label: Label::Caption(Caption::Text(label)),
        action: Some(Message::OpenUrl(url)),
        style: None,
        tooltip: None,
        width: Width::Fixed,
    }
}

/// Back out of a detail view, to whatever list it was opened from.
pub fn back(action: Message) -> (r: Control)
    ensures
        r == control(Label::Icon(Icon::ArrowBack, IconSize::Regular), Some(action), None),
{
    make(Label::Icon(Icon::ArrowBack, IconSize::Regular), Some(action), None)
}

pub fn open_url_icon(url: String) -> (r: Control)
    ensures
        r == control(Label::Icon(Icon::OpenInBrowser, IconSize::Regular), Some(Message::OpenUrl(url)), None),
{
    make(Label::Icon(Icon::OpenInBrowser, IconSize::Regular), Some(Message::OpenUrl(url)), None)
}

pub open spec fn nav_phrase(screen: Screen) -> Phrase {
    match screen {
        Screen::Backup => Phrase::NavBackupButton,
        Screen::Restore => Phrase::NavRestoreButton,
        Screen::CustomGames => Phrase::NavCustomGamesButton,
        Screen::Emulators => Phrase::NavEmulatorsButton,
        Screen::Logs => Phrase::NavLogsButton,
        Screen::Other => Phrase::NavSettingsButton,
    }
}

/// An entry of the side navigation; the current screen's is marked active.
pub fn side_nav(screen: Screen, current_screen: Screen) -> (r: Control)
    ensures
        r == (Control {
            label: Label::Caption(Caption::Phrase(nav_phrase(screen))),
            action: Some(Message::SwitchScreen(screen)),
            style: Some(if current_screen == screen { style::Button::SideNavActive } else { style::Button::SideNavInactive }),
            tooltip: None,
            width: Width::Fill,
        }),
{
    let label = match screen {
        Screen::Backup => Phrase::NavBackupButton,
        Screen::Restore => Phrase::NavRestoreButton,
        Screen::CustomGames => Phrase::NavCustomGamesButton,
        Screen::Emulators => Phrase::NavEmulatorsButton,
        Screen::Logs => Phrase::NavLogsButton,
        Screen::Other => Phrase::NavSettingsButton,
    };
    Control {
        label: Label::Caption(Caption::Phrase(label)),
        action: Some(Message::SwitchScreen(screen)),
        style: Some(if current_screen == screen { style::Button::SideNavActive } else { style::Button::SideNavInactive }),
        tooltip: None,
        width: Width::Fill,
    }
}

pub open spec fn cloud_action(operation: Operation, direction: SyncDirection) -> Option<Message> {
    if operation == Operation::Idle {
        Some(Message::ConfirmSynchronizeCloud { direction })
    } else if operation == (Operation::Cloud { direction, cancelling: false }) {
        Some(Message::CancelOperation)
    } else {
        None
    }
}

pub open spec fn cloud_style(operation: Operation, direction: SyncDirection) -> Option<style::Button> {
    if operation matches Operation::Cloud { direction: d, cancelling: _ } && d == direction {
        Some(style::Button::Negative)
    } else {
        None
    }
}

fn cloud(operation: &Operation, direction: SyncDirection, icon: Icon) -> (r: Control)
    ensures
        r == control(Label::Icon(icon, IconSize::Regular), cloud_action(*operation, direction), cloud_style(*operation, direction)),
{
    let action = match operation {
        Operation::Idle => Some(Message::ConfirmSynchronizeCloud { direction }),
        Operation::Cloud { direction: d, cancelling: false } => if *d == direction {
            Some(Message::CancelOperation)
        } else {
            None
        },
        _ => None,
    };
    let style = match operation {
        Operation::Cloud { direction: d, cancelling: _ } => if *d == direction {
            Some(style::Button::Negative)
        } else {
            None
        },
        _ => None,
    };
    make(Label::Icon(icon, IconSize::Regular), action, style)
}

/// Uploading to the cloud; while it uploads, the same button stops it.
pub fn upload(operation: &Operation) -> (r: Control)
    ensures
        r == control(
            Label::Icon(Icon::Upload, IconSize::Regular),
            cloud_action(*operation, SyncDirection::Upload),
            cloud_style(*operation, SyncDirection::Upload),
        ),
{
    cloud(operation, SyncDirection::Upload, Icon::Upload)
}

/// Downloading from the cloud; while it downloads, the same button stops it.
pub fn download(operation: &Operation) -> (r: Control)
    ensures
        r == control(
            Label::Icon(Icon::Download, IconSize::Regular),
            cloud_action(*operation, SyncDirection::Download),
            cloud_style(*operation, SyncDirection::Download),
        ),
{
    cloud(operation, SyncDirection::Download, Icon::Download)
}

pub open spec fn validate_control(ongoing: Operation) -> Control {
    Control {
        label: Label::Caption(
            Caption::Phrase(
                if ongoing == (Operation::ValidateBackups { cancelling: false }) {
                    Phrase::CancelButton
                } else if ongoing == (Operation::ValidateBackups { cancelling: true }) {
                    Phrase::CancellingButton
                } else {
                    Phrase::ValidateButton
                },
            ),
        ),
        action: if ongoing == Operation::Idle {
            Some(Message::ValidateBackups(ValidatePhase::Start))
        } else if ongoing == (Operation::ValidateBackups { cancelling: false }) {
            Some(Message::CancelOperation)
        } else {
            None
        },
        style: if ongoing is ValidateBackups { Some(style::Button::Negative) } else { None },
        tooltip: None,
        width: Width::Fixed,
    }
}

pub fn validate_backups(ongoing: &Operation) -> (r: Control)
    ensures
        r == validate_control(*ongoing),
{
    let phrase = match ongoing {
        Operation::ValidateBackups { cancelling: false } => Phrase::CancelButton,
        Operation::ValidateBackups { cancelling: true } => Phrase::CancellingButton,
        _ => Phrase::ValidateButton,
    };
    let action = match ongoing {
        Operation::Idle => Some(Message::ValidateBackups(ValidatePhase::Start)),
        Operation::ValidateBackups { cancelling: false } => Some(Message::CancelOperation),
        _ => None,
    };
    let style = match ongoing {
        Operation::ValidateBackups { cancelling: _ } => Some(style::Button::Negative),
        _ => None,
    };
    Control { label: Label::Caption(Caption::Phrase(phrase)), action, style, tooltip: None, width: Width::Fixed }
}

pub fn show_game_notes(game: String, notes: Vec<Note>) -> (r: Control)
    ensures
        r == control(
            Label::Icon(Icon::Info, IconSize::Narrow),
            Some(Message::ShowGameNotes { game, notes }),
            Some(style::Button::Bare),
        ),
{
    make(Label::Icon(Icon::Info, IconSize::Narrow), Some(Message::ShowGameNotes { game, notes }), Some(style::Button::Bare))
}

/// The arrow that opens or closes a row.
pub fn expand(expanded: bool, on_press: Message) -> (r: Control)
    ensures
        r == control(
            Label::Icon(if expanded { Icon::KeyboardArrowDown } else { Icon::KeyboardArrowRight }, IconSize::Small),
            Some(on_press),
            Some(style::Button::Bare),
        ),
{
    make(
        Label::Icon(if expanded { Icon::KeyboardArrowDown } else { Icon::KeyboardArrowRight }, IconSize::Small),
        Some(on_press),
        Some(style::Button::Bare),
    )
}

} // verus!
