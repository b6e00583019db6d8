use audio_companion::tray::{next_visibility, tray_action, TrayAction, TrayEvent, WindowVisibility};

#[test]
fn left_click_shows_and_focuses() {
    assert_eq!(tray_action(&TrayEvent::LeftClick), TrayAction::ShowAndFocus);
}

#[test]
fn menu_show_shows_and_focuses() {
    let event = TrayEvent::MenuItemClick("show".to_owned());
    assert_eq!(tray_action(&event), TrayAction::ShowAndFocus);
}

#[test]
fn menu_toggle_surfaces_the_window() {
    let event = TrayEvent::MenuItemClick("toggle".to_owned());
    assert_eq!(tray_action(&event), TrayAction::Show);
}

#[test]
fn menu_quit_terminates() {
    let event = TrayEvent::MenuItemClick("quit".to_owned());
    assert_eq!(tray_action(&event), TrayAction::Exit);
}

#[test]
fn unknown_menu_item_is_ignored() {
    let event = TrayEvent::MenuItemClick("settings".to_owned());
    assert_eq!(tray_action(&event), TrayAction::Ignore);
}

#[test]
fn close_request_hides_instead_of_terminating() {
    let action = tray_action(&TrayEvent::WindowCloseRequested);
    assert_eq!(action, TrayAction::HideWindow);
    assert_ne!(action, TrayAction::Exit);
    assert_eq!(
        next_visibility(WindowVisibility::Shown, action),
        WindowVisibility::Hidden
    );
}

#[test]
fn showing_is_idempotent() {
    for start in [WindowVisibility::Shown, WindowVisibility::Hidden] {
        assert_eq!(
            next_visibility(start, TrayAction::ShowAndFocus),
            WindowVisibility::Shown
        );
        assert_eq!(next_visibility(start, TrayAction::Show), WindowVisibility::Shown);
    }
}

#[test]
fn ignored_event_leaves_visibility_unchanged() {
    assert_eq!(
        next_visibility(WindowVisibility::Hidden, TrayAction::Ignore),
        WindowVisibility::Hidden
    );
    assert_eq!(
        next_visibility(WindowVisibility::Shown, TrayAction::Ignore),
        WindowVisibility::Shown
    );
}
