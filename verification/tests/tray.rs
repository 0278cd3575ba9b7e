use blocker::ui::{api_path_of, api_post_request, menu_action, sidecar_args, MenuAction};

#[test]
fn menu_entries_map_to_actions() {
    assert_eq!(menu_action("open"), MenuAction::Open);
    assert_eq!(menu_action("enable_protection"), MenuAction::EnableProtection);
    assert_eq!(menu_action("disable_protection"), MenuAction::DisableProtection);
    assert_eq!(menu_action("quit"), MenuAction::Quit);
    assert_eq!(menu_action("Quit"), MenuAction::Ignore);
}

#[test]
fn protection_entries_post_to_the_api() {
    assert_eq!(api_path_of(MenuAction::EnableProtection), Some("/protection/enable"));
    assert_eq!(api_path_of(MenuAction::DisableProtection), Some("/protection/disable"));
    assert_eq!(api_path_of(MenuAction::Open), None);
    assert_eq!(
        api_post_request("/protection/enable"),
        "POST /protection/enable HTTP/1.1\r\nHost: 127.0.0.1:4780\r\nConnection: close\r\nContent-Length: 0\r\n\r\n"
    );
}

#[test]
fn backend_is_started_in_dev_mode() {
    assert_eq!(sidecar_args("/data/blocker.db"), vec!["dev-run", "--db", "/data/blocker.db"]);
}
