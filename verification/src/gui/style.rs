//! The classes the screens style their widgets with. What each class looks like is the theme's
//! business; which class a widget takes is decided where the widget is made.
use vstd::prelude::*;

use crate::scan::info::ScanChange;

verus! {

#[derive(Clone, Copy, Debug, Default, PartialEq, Eq, Structural)]
pub enum Text {
    #[default]
    Default,
    Failure,
    /// Secondary text, for the context strip under the command bar.
    Muted,
}

#[derive(Clone, Copy, Debug, Default, PartialEq, Eq, Structural)]
pub struct Menu;

#[derive(Clone, Copy, Debug, Default, PartialEq, Eq, Structural)]
pub enum Button {
    #[default]
    Primary,
    Negative,
    /// Removing or deleting something.
    Danger,
    GameActionPrimary,
    GameListEntryTitle,
    GameListEntryTitleFailed,
    GameListEntryTitleDisabled,
    GameListEntryTitleUnscanned,
    NavButtonActive,
    NavButtonInactive,
    SideNavActive,
    SideNavInactive,
    /// Outlined button, for what shares a bar with the primary action without competing with it.
    Secondary,
    Badge,
    Bare,
}

#[derive(Clone, Copy, Debug, Default, PartialEq, Eq, Structural)]
pub enum Container {
    #[default]
    Wrapper,
    Primary,
    /// The navigation column on the left.
    Sidebar,
    /// The strip above the content, carrying the title of the screen.
    Topbar,
    /// The row of column names at the top of a table.
    TableHeader,
    /// One line of a table.
    TableRow,
    ModalForeground,
    ModalBackground,
    GameListEntry,
    Badge,
    BadgeActivated,
    BadgeFaded,
    ChangeBadge { change: ScanChange, faded: bool },
    DisabledBackup,
    Notification,
    Tooltip,
    /// A card: a self-contained block of content with its own surface.
    Card,
    /// The square a logo or an avatar sits in.
    LogoTile,
    /// A status chip: one short phrase naming the state of the thing beside it.
    Chip { positive: bool },
}

#[derive(Clone, Copy, Debug, Default, PartialEq, Eq, Structural)]
pub struct Scrollable;

#[derive(Clone, Copy, Debug, Default, PartialEq, Eq, Structural)]
pub enum PickList {
    #[default]
    Primary,
    Backup,
    Popup,
}

#[derive(Clone, Copy, Debug, Default, PartialEq, Eq, Structural)]
pub struct Checkbox;

#[derive(Clone, Copy, Debug, Default, PartialEq, Eq, Structural)]
pub struct TextInput;

#[derive(Clone, Copy, Debug, Default, PartialEq, Eq, Structural)]
pub struct ProgressBar;

#[derive(Clone, Copy, Debug, Default, PartialEq, Eq, Structural)]
pub struct TextEditor;

#[derive(Clone, Copy, Debug, Default, PartialEq, Eq, Structural)]
pub struct Svg;

} // verus!
