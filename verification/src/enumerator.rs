//! Description of one capturable source as the host enumeration reports it,
//! and the decision of which enumerated windows are worth listing. The walk
//! over the live window list itself is host work; each candidate's plain
//! attributes are judged here.

use vstd::prelude::*;
use crate::text::{contains_substring, has_substring};

verus! {

/// Extended style bit marking a tool window.
pub const WS_EX_TOOLWINDOW: u32 = 0x80;

/// Extended style bit marking an application window.
pub const WS_EX_APPWINDOW: u32 = 0x40000;

/// Information about one enumerated window.
#[derive(Clone, Debug)]
pub struct WindowInfo {
    /// Window handle.
    pub hwnd: isize,
    /// Window title.
    pub title: String,
    /// Process ID.
    pub process_id: u32,
    /// Executable name.
    pub exe_name: String,
    /// Window class name.
    pub class_name: String,
}

impl WindowInfo {
    /// The name shown for this window: its title, or the executable's name
    /// when the title is empty.
    pub open spec fn spec_display_name(&self) -> Seq<char> {
        if self.title@.len() == 0 {
            self.exe_name@
        } else {
            self.title@
        }
    }

    /// Get a display name (title or exe name).
    pub fn display_name(&self) -> (name: &str)
        ensures
            name@ == self.spec_display_name(),
    {
        if self.title.as_str().is_empty() {
            self.exe_name.as_str()
        } else {
            self.title.as_str()
        }
    }
}

/// A window belongs in the picker when it is visible, is not a bare tool
/// window, owns itself, has a title, is none of the shell's own surfaces,
/// and is not one of this application's windows.
pub open spec fn spec_should_list(
    visible: bool,
    ex_style: u32,
    is_root_owner: bool,
    title: Seq<char>,
    class_name: Seq<char>,
) -> bool {
    &&& visible
    &&& !((ex_style & WS_EX_TOOLWINDOW) != 0 && (ex_style & WS_EX_APPWINDOW) == 0)
    &&& is_root_owner
    &&& title.len() > 0
    &&& class_name != "Progman"@
    &&& class_name != "WorkerW"@
    &&& class_name != "Shell_TrayWnd"@
    &&& class_name != "Windows.UI.Core.CoreWindow"@
    &&& !has_substring(title, "Pluriview"@)
}

/// Decide whether an enumerated window is offered for capture.
pub fn should_list_window(
    visible: bool,
    ex_style: u32,
    is_root_owner: bool,
    title: &String,
    class_name: &String,
) -> (keep: bool)
    ensures
        keep == spec_should_list(visible, ex_style, is_root_owner, title@, class_name@),
{
    if !visible {
        return false;
    }
    if (ex_style & WS_EX_TOOLWINDOW) != 0 && (ex_style & WS_EX_APPWINDOW) == 0 {
        return false;
    }
    if !is_root_owner {
        return false;
    }
    if title.as_str().is_empty() {
        return false;
    }
    if *class_name == String::from_str("Progman") {
        return false;
    }
    if *class_name == String::from_str("WorkerW") {
        return false;
    }
    if *class_name == String::from_str("Shell_TrayWnd") {
        return false;
    }
    if *class_name == String::from_str("Windows.UI.Core.CoreWindow") {
        return false;
    }
    if contains_substring(title.as_str(), "Pluriview") {
        return false;
    }
    true
}

} // verus!
