//! The icons the controls show.
use vstd::prelude::*;

verus! {

#[derive(Clone, Copy, Debug, PartialEq, Eq, Structural)]
pub enum Icon {
    AddCircle,
    ArrowBack,
    ArrowDownward,
    ArrowForward,
    ArrowUpward,
    Delete,
    Download,
    Filter,
    FolderOpen,
    Info,
    KeyboardArrowDown,
    KeyboardArrowRight,
    OpenInBrowser,
    OpenInNew,
    Refresh,
    RemoveCircle,
    Search,
    Upload,
    VideogameAsset,
    VisibilityOff,
}

} // verus!
