use savevault::gui::button::{
    add, back, backup_main, download, expand, filter, hide_item, move_down, move_up, next_page, previous_page,
    refresh_emulators, remove, reset_filter, restore_main, scan, side_nav, toggle_all_custom_games, upload,
    validate_backups, Caption, Control, IconSize, Label, Phrase, Width,
};
use savevault::gui::common::{
    BackupPhase, EditAction, EditDirection, Finality, Message, Operation, RestorePhase, ScanKind, Screen,
    SyncDirection, ValidatePhase,
};
use savevault::gui::emulator_art::{console, game_tile, GameTile};
use savevault::gui::icon::Icon;
use savevault::gui::style;
use savevault::gui::vault::Game;
use savevault::scan::emulator::App;
use savevault::scan::game_filter::Event;

fn edit(action: EditAction) -> Message {
    match action {
        EditAction::Remove(i) => Message::OpenUrl(format!("remove {i}")),
        EditAction::Move(i, EditDirection::Up) => Message::OpenUrl(format!("up {i}")),
        EditAction::Move(i, EditDirection::Down) => Message::OpenUrl(format!("down {i}")),
        _ => Message::OpenUrl("add".to_string()),
    }
}

#[test]
fn before_the_first_scan_the_scan_is_the_main_action() {
    let c = scan(&Operation::Idle, ScanKind::Backup, false);
    assert_eq!(Label::Caption(Caption::Phrase(Phrase::ScanButton)), c.label);
    assert_eq!(Some(style::Button::Primary), c.style);
    assert_eq!(
        Some(Message::Backup(BackupPhase::Start { preview: true, repair: false, jump: false, games: None })),
        c.action
    );

    let again = scan(&Operation::Idle, ScanKind::Restore, true);
    assert_eq!(Label::Caption(Caption::Phrase(Phrase::RescanButton)), again.label);
    assert_eq!(Some(style::Button::Secondary), again.style);
    assert_eq!(Some(Message::Restore(RestorePhase::Start { preview: true, games: None })), again.action);

    let running = scan(&Operation::Backup { finality: Finality::Preview, cancelling: false }, ScanKind::Backup, true);
    assert_eq!(Some(Message::CancelOperation), running.action);
    assert_eq!(Some(style::Button::Negative), running.style);

    let stopping = scan(&Operation::Restore { finality: Finality::Preview, cancelling: true }, ScanKind::Restore, true);
    assert_eq!(Label::Caption(Caption::Phrase(Phrase::CancellingButton)), stopping.label);
    assert_eq!(None, stopping.action);
}

/// Present and disabled when the scan found nothing new, saying why.
#[test]
fn the_backup_button_never_offers_to_back_up_nothing() {
    let c = backup_main(&Operation::Idle, false, false);
    assert_eq!(None, c.action);
    assert_eq!(Some(Caption::Phrase(Phrase::NothingToBackUpTooltip)), c.tooltip);

    let c = backup_main(&Operation::Idle, true, true);
    assert_eq!(Some(Message::Backup(BackupPhase::Confirm { games: None })), c.action);
    assert_eq!(Some(Caption::Phrase(Phrase::OperationWillOnlyIncludeListedGames)), c.tooltip);

    let c = backup_main(&Operation::Backup { finality: Finality::Final, cancelling: false }, false, true);
    assert_eq!(Some(Message::CancelOperation), c.action);
    assert_eq!(Some(style::Button::Negative), c.style);
}

#[test]
fn restoring_has_no_nothing_changed_state() {
    let c = restore_main(&Operation::Idle, false);
    assert_eq!(Some(Message::Restore(RestorePhase::Confirm { games: None })), c.action);
    assert_eq!(None, c.tooltip);
    let busy = restore_main(&Operation::ValidateBackups { cancelling: false }, true);
    assert_eq!(None, busy.action);
}

#[test]
fn rows_move_only_where_they_can() {
    assert_eq!(None, move_up(edit, 0).action);
    assert_eq!(Some(Message::OpenUrl("up 3".to_string())), move_up(edit, 3).action);
    assert_eq!(None, move_down(edit, 4, 5).action);
    assert_eq!(Some(Message::OpenUrl("down 3".to_string())), move_down(edit, 3, 5).action);
    assert_eq!(Label::Icon(Icon::ArrowUpward, IconSize::Small), move_up(edit, 3).label);
}

#[test]
fn removing_is_styled_as_danger_and_adding_is_not() {
    assert_eq!(Some(style::Button::Danger), remove(edit, 2).style);
    assert_eq!(Some(Message::OpenUrl("remove 2".to_string())), remove(edit, 2).action);
    assert_eq!(Some(style::Button::Secondary), add(edit).style);
    // Clearing a filter is not destruction.
    assert_eq!(None, reset_filter(true).style);
    assert_eq!(None, reset_filter(false).action);
    assert_eq!(Some(Message::Filter { event: Event::Reset }), reset_filter(true).action);
    assert_eq!(Some(style::Button::Negative), filter(true).style);
    assert_eq!(Some(Message::Filter { event: Event::Toggled }), filter(false).action);
}

#[test]
fn pages_turn_while_there_are_pages() {
    assert_eq!(Some(Message::OpenUrl("page 3".to_string())), next_page(|p| Message::OpenUrl(format!("page {p}")), 2, 5).action);
    assert_eq!(None, next_page(|p| Message::OpenUrl(format!("page {p}")), 5, 5).action);
    assert_eq!(None, previous_page(|p| Message::OpenUrl(format!("page {p}")), 0).action);
    assert_eq!(Some(Message::OpenUrl("page 1".to_string())), previous_page(|p| Message::OpenUrl(format!("page {p}")), 2).action);
}

#[test]
fn the_cloud_buttons_stop_what_they_started() {
    assert_eq!(Some(Message::ConfirmSynchronizeCloud { direction: SyncDirection::Upload }), upload(&Operation::Idle).action);
    let uploading = Operation::Cloud { direction: SyncDirection::Upload, cancelling: false };
    assert_eq!(Some(Message::CancelOperation), upload(&uploading).action);
    assert_eq!(Some(style::Button::Negative), upload(&uploading).style);
    assert_eq!(None, download(&uploading).action);
    assert_eq!(None, download(&uploading).style);
}

#[test]
fn validating_can_be_cancelled() {
    assert_eq!(Some(Message::ValidateBackups(ValidatePhase::Start)), validate_backups(&Operation::Idle).action);
    let running = validate_backups(&Operation::ValidateBackups { cancelling: false });
    assert_eq!(Some(Message::CancelOperation), running.action);
    assert_eq!(Label::Caption(Caption::Phrase(Phrase::CancelButton)), running.label);
    assert_eq!(Width::Fixed, running.width);
}

#[test]
fn the_navigation_marks_the_current_screen() {
    let c = side_nav(Screen::Logs, Screen::Logs);
    assert_eq!(Some(style::Button::SideNavActive), c.style);
    assert_eq!(Some(Message::SwitchScreen(Screen::Logs)), c.action);
    assert_eq!(Some(style::Button::SideNavInactive), side_nav(Screen::Logs, Screen::Backup).style);
}

#[test]
fn small_controls() {
    let c: Control = toggle_all_custom_games(true, true);
    assert_eq!(Label::Both(Icon::Filter, Caption::Phrase(Phrase::DisableAllButton)), c.label);
    assert_eq!(Some(Message::DeselectAllGames), c.action);
    assert_eq!(Some(Message::RefreshEmulators), refresh_emulators().action);
    assert_eq!(Some(style::Button::Primary), refresh_emulators().style);
    assert_eq!(Label::Icon(Icon::KeyboardArrowDown, IconSize::Small), expand(true, Message::UpdateApp).label);
    assert_eq!(Some(Message::UpdateApp), back(Message::UpdateApp).action);
    assert_eq!(Label::Icon(Icon::VisibilityOff, IconSize::Small), hide_item(Message::UpdateApp).label);
}

#[test]
fn each_emulator_names_its_console() {
    assert_eq!("PlayStation 2", console(App::Pcsx2));
    assert_eq!("Nintendo Switch", console(App::Sudachi));
    assert_eq!("PSP", console(App::Ppsspp));
}

fn vault_game(name: &str, emulator: Option<&str>) -> Game {
    Game { name: name.to_string(), last_backup: 0, backups: 1, files: 1, bytes: 1, emulator: emulator.map(|x| x.to_string()) }
}

#[test]
fn an_emulator_game_shows_the_emulator_and_others_their_initial() {
    assert_eq!(GameTile::Logo(App::Pcsx2), game_tile(&vault_game("PCSX2 SLUS-21004", Some("PCSX2"))));
    assert_eq!(GameTile::Initial("H".to_string()), game_tile(&vault_game("hades", None)));
    assert_eq!(GameTile::Initial("C".to_string()), game_tile(&vault_game("[celeste]", Some("Unknown"))));
    assert_eq!(GameTile::Initial("?".to_string()), game_tile(&vault_game("***", None)));
}
