//! The status window's life beside the tray icon, shared by server and
//! client: the tray menu shows it or toggles the console, and closing it
//! minimizes it to the tray instead of quitting. Drawing the window and
//! sending the viewport commands is done by the caller.

use vstd::prelude::*;

verus! {

/// Whether the window is up, whether the pending close request has already
/// been turned into "minimize to tray", and whether the console is shown.
#[derive(Debug, Clone, Copy, PartialEq, Eq, Structural)]
pub struct WindowState {
    pub visible: bool,
    pub close_handled: bool,
    pub show_console: bool,
}

/// What happened to the window.
#[derive(Debug, Clone, Copy, PartialEq, Eq, Structural)]
pub enum WindowEvent {
    /// "Show status" in the tray menu.
    Show,
    /// "Show Console" in the tray menu.
    ToggleConsole,
    /// The window's close button.
    CloseRequested,
}

/// What the caller does to the window afterwards.
#[derive(Debug, Clone, Copy, PartialEq, Eq, Structural)]
pub enum WindowAction {
    Nothing,
    /// Un-minimize and focus it.
    Restore,
    /// Cancel the close and minimize it to the tray.
    MinimizeToTray,
}

/// The window at start-up: shown, so that the status is seen at once.
pub fn initial_window() -> (r: WindowState)
    ensures
        r == (WindowState { visible: true, close_handled: false, show_console: false }),
{
    WindowState { visible: true, close_handled: false, show_console: false }
}

/// One event: the tray menu brings the window back (toggling the console
/// for "Show Console"); a close request while the window is up and not yet
/// handled hides it, with the console, and is handled only once.
pub open spec fn window_step(st: WindowState, ev: WindowEvent) -> (WindowState, WindowAction) {
    match ev {
        WindowEvent::Show => (
            WindowState { visible: true, close_handled: false, ..st },
            WindowAction::Restore,
        ),
        WindowEvent::ToggleConsole => (
            WindowState { visible: true, close_handled: false, show_console: !st.show_console },
            WindowAction::Restore,
        ),
        WindowEvent::CloseRequested => if st.visible && !st.close_handled {
            (
                WindowState { visible: false, close_handled: true, show_console: false },
                WindowAction::MinimizeToTray,
            )
        } else {
            (st, WindowAction::Nothing)
        },
    }
}

/// Apply one event to the window state and say what to do with the window.
pub fn handle_window_event(st: &mut WindowState, ev: WindowEvent) -> (r: WindowAction)
    ensures
        (*final(st), r) == window_step(*old(st), ev),
{
    match ev {
        WindowEvent::Show => {
            st.visible = true;
            st.close_handled = false;
            WindowAction::Restore
        },
        WindowEvent::ToggleConsole => {
            st.visible = true;
            st.close_handled = false;
            st.show_console = !st.show_console;
            WindowAction::Restore
        },
        WindowEvent::CloseRequested => {
            if st.visible && !st.close_handled {
                st.visible = false;
                st.close_handled = true;
                st.show_console = false;
                WindowAction::MinimizeToTray
            } else {
                WindowAction::Nothing
            }
        },
    }
}

/// Closing never quits: a close request leaves the window hidden (or as it
/// was, when already handled), and repeating it while it is still pending
/// does nothing more.
pub proof fn lemma_close_handled_once(st: WindowState)
    ensures
        !window_step(st, WindowEvent::CloseRequested).0.visible || st.close_handled,
        window_step(window_step(st, WindowEvent::CloseRequested).0, WindowEvent::CloseRequested).1
            == WindowAction::Nothing,
{
}

/// The tray menu always brings the window back, and a later close is
/// handled again.
pub proof fn lemma_show_restores(st: WindowState, ev: WindowEvent)
    requires
        ev != WindowEvent::CloseRequested,
    ensures
        window_step(st, ev).0.visible,
        window_step(window_step(st, ev).0, WindowEvent::CloseRequested).1
            == WindowAction::MinimizeToTray,
{
}

} // verus!
