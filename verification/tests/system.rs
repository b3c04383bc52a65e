use framely::system::{action_for_hotkey, action_for_menu_event, tray_icon_rgba, MenuItemIds, SystemAction};

fn items() -> MenuItemIds {
    MenuItemIds {
        capture_zone: "1".to_string(),
        capture_window: "2".to_string(),
        paste: "3".to_string(),
        quit: "4".to_string(),
    }
}

#[test]
fn menu_events_map_to_actions() {
    let items = items();
    assert_eq!(action_for_menu_event(&"1".to_string(), &items), Some(SystemAction::CaptureZone));
    assert_eq!(action_for_menu_event(&"2".to_string(), &items), Some(SystemAction::CaptureWindow));
    assert_eq!(action_for_menu_event(&"3".to_string(), &items), Some(SystemAction::Paste));
    assert_eq!(action_for_menu_event(&"4".to_string(), &items), Some(SystemAction::Quit));
    assert_eq!(action_for_menu_event(&"5".to_string(), &items), None);
}

#[test]
fn hotkeys_map_to_actions_on_press_only() {
    assert_eq!(action_for_hotkey(10, true, 10, 20), Some(SystemAction::CaptureZone));
    assert_eq!(action_for_hotkey(20, true, 10, 20), Some(SystemAction::CaptureWindow));
    assert_eq!(action_for_hotkey(10, false, 10, 20), None);
    assert_eq!(action_for_hotkey(30, true, 10, 20), None);
}

#[test]
fn tray_icon_is_a_rounded_indigo_square() {
    let rgba = tray_icon_rgba();
    assert_eq!(rgba.len(), 32 * 32 * 4);
    let px = |x: usize, y: usize| &rgba[(y * 32 + x) * 4..(y * 32 + x) * 4 + 4];
    assert_eq!(px(0, 0), &[0, 0, 0, 0]);
    assert_eq!(px(31, 31), &[0, 0, 0, 0]);
    assert_eq!(px(16, 16), &[99, 102, 241, 255]);
    assert_eq!(px(0, 16), &[99, 102, 241, 255]);
    assert_eq!(px(8, 0), &[99, 102, 241, 255]);
    assert_eq!(px(2, 2), &[0, 0, 0, 0]);
    assert_eq!(px(3, 3), &[99, 102, 241, 255]);
}
