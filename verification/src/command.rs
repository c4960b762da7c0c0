//! Commands sent from the tray menu and app windows to the main-loop command
//! pump. Shared so windows can trigger the same actions as the tray.
use vstd::prelude::*;

verus! {

#[derive(Clone, Copy, Debug, PartialEq, Eq, Structural)]
pub enum TrayCmd {
    ShowPopup,
    OpenTasks,
    OpenSettings,
    Split,
    StopTracking,
    Refresh,
    Quit,
}

} // verus!
