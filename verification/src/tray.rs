//! The tray and window interaction state machine.
//!
//! User interactions with the tray icon, its menu and the window's close
//! affordance arrive as discrete events; each is mapped to one
//! deterministic action on the externally owned window and process state.
//! The one non-obvious policy: a close request hides the window instead of
//! terminating, so the application persists in the tray until an explicit
//! quit. Event handlers in the embedding layer stay thin translators into
//! this mapping.

use vstd::prelude::*;

verus! {

/// One external interaction event, as delivered by the host event loop.
pub enum TrayEvent {
    /// Primary activation of the tray icon, e.g. a left click.
    LeftClick,
    /// A click on the tray menu item with the given identifier.
    MenuItemClick(String),
    /// The user asked to close the window (the "X" affordance).
    WindowCloseRequested,
}

/// The action the event handler must carry out on the window or process.
#[derive(PartialEq, Eq, Structural, Clone, Copy, Debug)]
pub enum TrayAction {
    /// Show the window and give it input focus.
    ShowAndFocus,
    /// Show the window without taking focus, so the user can observe the
    /// effect of a capture toggle; starting or stopping capture itself is
    /// owned by the frontend.
    Show,
    /// Terminate the process immediately.
    Exit,
    /// Suppress the default close and hide the window; the process keeps
    /// running in the background.
    HideWindow,
    /// Do nothing; the event carries no meaning for this application.
    Ignore,
}

/// Whether the window is currently shown; state owned by the windowing
/// subsystem, tracked here only to state what the actions do to it.
#[derive(PartialEq, Eq, Structural, Clone, Copy, Debug)]
pub enum WindowVisibility {
    Shown,
    Hidden,
}

/// The action that the event `e` maps to.
pub open spec fn spec_tray_action(e: TrayEvent) -> TrayAction {
    match e {
        TrayEvent::LeftClick => TrayAction::ShowAndFocus,
        TrayEvent::MenuItemClick(id) => if id@ == "show"@ {
            TrayAction::ShowAndFocus
        } else if id@ == "toggle"@ {
            TrayAction::Show
        } else if id@ == "quit"@ {
            TrayAction::Exit
        } else {
            TrayAction::Ignore
        },
        TrayEvent::WindowCloseRequested => TrayAction::HideWindow,
    }
}

/// Maps one interaction event to the action to carry out.
pub fn tray_action(e: &TrayEvent) -> (a: TrayAction)
    ensures
        a == spec_tray_action(*e),
{
    match e {
        TrayEvent::LeftClick => TrayAction::ShowAndFocus,
        TrayEvent::MenuItemClick(id) => {
            let show_label = "show".to_owned();
            let toggle_label = "toggle".to_owned();
            let quit_label = "quit".to_owned();
            if *id == show_label {
                TrayAction::ShowAndFocus
            } else if *id == toggle_label {
                TrayAction::Show
            } else if *id == quit_label {
                TrayAction::Exit
            } else {
                TrayAction::Ignore
            }
        },
        TrayEvent::WindowCloseRequested => TrayAction::HideWindow,
    }
}

/// The visibility after the handler carries out `a` on a window that is
/// currently `v`; `Exit` ends the process, so the window is gone either
/// way.
pub open spec fn spec_next_visibility(v: WindowVisibility, a: TrayAction) -> WindowVisibility {
    match a {
        TrayAction::ShowAndFocus => WindowVisibility::Shown,
        TrayAction::Show => WindowVisibility::Shown,
        TrayAction::Exit => WindowVisibility::Hidden,
        TrayAction::HideWindow => WindowVisibility::Hidden,
        TrayAction::Ignore => v,
    }
}

/// Steps the tracked window visibility by one carried-out action.
pub fn next_visibility(v: WindowVisibility, a: TrayAction) -> (r: WindowVisibility)
    ensures
        r == spec_next_visibility(v, a),
{
    match a {
        TrayAction::ShowAndFocus => WindowVisibility::Shown,
        TrayAction::Show => WindowVisibility::Shown,
        TrayAction::Exit => WindowVisibility::Hidden,
        TrayAction::HideWindow => WindowVisibility::Hidden,
        TrayAction::Ignore => v,
    }
}

/// Whether carrying out `a` terminates the process.
pub open spec fn spec_action_terminates(a: TrayAction) -> bool {
    a == TrayAction::Exit
}

/// Law: a window close request never terminates the process; the only
/// event whose action terminates it is an explicit quit from the menu.
pub proof fn lemma_only_quit_terminates(e: TrayEvent)
    ensures
        !spec_action_terminates(spec_tray_action(TrayEvent::WindowCloseRequested)),
        spec_action_terminates(spec_tray_action(e)) <==> (e matches TrayEvent::MenuItemClick(id)
            && id@ == "quit"@),
{
    reveal_strlit("show");
    reveal_strlit("toggle");
    reveal_strlit("quit");
    assert("quit"@[0] != "show"@[0]);
    assert("quit"@.len() != "toggle"@.len());
}

/// Law: showing the window is idempotent — a tray activation or a show
/// from the menu leaves the window shown whatever its prior visibility.
pub proof fn lemma_show_idempotent(v: WindowVisibility, e: TrayEvent)
    requires
        spec_tray_action(e) == TrayAction::ShowAndFocus || spec_tray_action(e) == TrayAction::Show,
    ensures
        spec_next_visibility(v, spec_tray_action(e)) == WindowVisibility::Shown,
{
}

} // verus!
