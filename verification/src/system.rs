//! Menu-bar and global-shortcut decisions: which action a menu click or a
//! shortcut press asks for.

use vstd::prelude::*;

verus! {

/// An action requested from the menu bar or by a global shortcut.
#[derive(Clone, Copy, Debug, PartialEq, Eq, Structural)]
pub enum SystemAction {
    CaptureZone,
    CaptureWindow,
    Paste,
    Quit,
}

/// Identifiers of the four menu-bar items.
pub struct MenuItemIds {
    pub capture_zone: String,
    pub capture_window: String,
    pub paste: String,
    pub quit: String,
}

/// The action of a menu click: the first item, in menu order, whose
/// identifier is the clicked one.
pub open spec fn menu_action(event_id: Seq<char>, items: MenuItemIds) -> Option<SystemAction> {
    if event_id == items.capture_zone@ {
        Some(SystemAction::CaptureZone)
    } else if event_id == items.capture_window@ {
        Some(SystemAction::CaptureWindow)
    } else if event_id == items.paste@ {
        Some(SystemAction::Paste)
    } else if event_id == items.quit@ {
        Some(SystemAction::Quit)
    } else {
        None
    }
}

/// Decides the action of a click on the menu item `event_id`; `None` for an
/// item that is not one of the four.
pub fn action_for_menu_event(event_id: &String, items: &MenuItemIds) -> (r: Option<SystemAction>)
    ensures
        r == menu_action(event_id@, *items),
{
    if *event_id == items.capture_zone {
        Some(SystemAction::CaptureZone)
    } else if *event_id == items.capture_window {
        Some(SystemAction::CaptureWindow)
    } else if *event_id == items.paste {
        Some(SystemAction::Paste)
    } else if *event_id == items.quit {
        Some(SystemAction::Quit)
    } else {
        None
    }
}

/// The action of a shortcut event: only presses count; the zone shortcut
/// is checked before the window shortcut.
pub open spec fn hotkey_action(
    event_id: u32,
    pressed: bool,
    capture_zone: u32,
    capture_window: u32,
) -> Option<SystemAction> {
    if !pressed {
        None
    } else if event_id == capture_zone {
        Some(SystemAction::CaptureZone)
    } else if event_id == capture_window {
        Some(SystemAction::CaptureWindow)
    } else {
        None
    }
}

/// Decides the action of a global-shortcut event `event_id` (`pressed`
/// tells a press from a release), given the ids of the zone and window
/// capture shortcuts.
pub fn action_for_hotkey(event_id: u32, pressed: bool, capture_zone: u32, capture_window: u32) -> (r:
    Option<SystemAction>)
    ensures
        r == hotkey_action(event_id, pressed, capture_zone, capture_window),
{
    if pressed {
        if event_id == capture_zone {
            return Some(SystemAction::CaptureZone);
        }
        if event_id == capture_window {
            return Some(SystemAction::CaptureWindow);
        }
    }
    None
}

/// Only presses of the two capture shortcuts ask for an action: a release
/// never does, a press of the zone shortcut asks for a zone capture, a
/// press of the window shortcut (when it is not also the zone shortcut)
/// for a window capture, and a press of any other shortcut for nothing.
/// So a press followed by its release asks for exactly one action.
pub proof fn lemma_hotkey_presses_only(event_id: u32, capture_zone: u32, capture_window: u32)
    ensures
        hotkey_action(event_id, false, capture_zone, capture_window) is None,
        hotkey_action(capture_zone, true, capture_zone, capture_window) == Some(
            SystemAction::CaptureZone,
        ),
        capture_window != capture_zone ==> hotkey_action(
            capture_window,
            true,
            capture_zone,
            capture_window,
        ) == Some(SystemAction::CaptureWindow),
        event_id != capture_zone && event_id != capture_window ==> hotkey_action(
            event_id,
            true,
            capture_zone,
            capture_window,
        ) is None,
{
}

/// A click on each of the four menu items asks for that item's action
/// (an item sharing its identifier with an earlier item in menu order
/// answers as that earlier item), and a click on anything else for none.
pub proof fn lemma_menu_items(event_id: Seq<char>, items: MenuItemIds)
    ensures
        menu_action(items.capture_zone@, items) == Some(SystemAction::CaptureZone),
        items.capture_window@ != items.capture_zone@ ==> menu_action(items.capture_window@, items)
            == Some(SystemAction::CaptureWindow),
        items.paste@ != items.capture_zone@ && items.paste@ != items.capture_window@ ==> menu_action(
            items.paste@,
            items,
        ) == Some(SystemAction::Paste),
        items.quit@ != items.capture_zone@ && items.quit@ != items.capture_window@ && items.quit@
            != items.paste@ ==> menu_action(items.quit@, items) == Some(SystemAction::Quit),
        event_id != items.capture_zone@ && event_id != items.capture_window@ && event_id
            != items.paste@ && event_id != items.quit@ ==> menu_action(event_id, items) is None,
{
}

/// Side of the menu-bar icon, in pixels.
pub const TRAY_ICON_SIZE: u32 = 32;

/// Radius of the icon's rounded corners, in pixels.
pub const TRAY_ICON_RADIUS: i32 = 8;

/// `(x, y)` lies within the corner circle centred on `(cx, cy)`.
pub open spec fn within_corner(x: int, y: int, cx: int, cy: int) -> bool {
    (x - cx) * (x - cx) + (y - cy) * (y - cy) <= 64
}

/// `(x, y)` lies on the icon's rounded square: everywhere except outside
/// the circles of radius 8 that round its four corners.
pub open spec fn on_tray_icon(x: int, y: int) -> bool {
    if x < 8 && y < 8 {
        within_corner(x, y, 8, 8)
    } else if x >= 24 && y < 8 {
        within_corner(x, y, 23, 8)
    } else if x < 8 && y >= 24 {
        within_corner(x, y, 8, 23)
    } else if x >= 24 && y >= 24 {
        within_corner(x, y, 23, 23)
    } else {
        true
    }
}

/// Byte `k` of pixel `p` of the icon: indigo on the rounded square,
/// transparent elsewhere.
pub open spec fn tray_icon_byte(p: int, k: int) -> u8 {
    if on_tray_icon(p % 32, p / 32) {
        if k == 0 {
            99
        } else if k == 1 {
            102
        } else if k == 2 {
            241
        } else {
            255
        }
    } else {
        0
    }
}

fn corner_test(x: i32, y: i32, cx: i32, cy: i32) -> (r: bool)
    requires
        0 <= x < 32,
        0 <= y < 32,
        0 <= cx < 32,
        0 <= cy < 32,
    ensures
        r == within_corner(x as int, y as int, cx as int, cy as int),
{
    let dx = x - cx;
    let dy = y - cy;
    assert(0 <= dx * dx <= 1024 && 0 <= dy * dy <= 1024) by (nonlinear_arith)
        requires
            -32 < dx < 32,
            -32 < dy < 32,
    ;
    dx * dx + dy * dy <= TRAY_ICON_RADIUS * TRAY_ICON_RADIUS
}

/// RGBA8 pixels of the 32 x 32 menu-bar icon: an indigo square with
/// rounded corners on a transparent background.
pub fn tray_icon_rgba() -> (rgba: Vec<u8>)
    ensures
        rgba@.len() == 32 * 32 * 4,
        forall|p: int, k: int| 0 <= p < 32 * 32 && 0 <= k < 4 ==> #[trigger] rgba@[4 * p + k] == tray_icon_byte(p, k),
{
    let mut rgba: Vec<u8> = Vec::new();
    let mut p: usize = 0;
    while p < 32 * 32
        invariant
            p <= 32 * 32,
            rgba@.len() == 4 * p,
            forall|q: int, k: int| 0 <= q < p && 0 <= k < 4 ==> #[trigger] rgba@[4 * q + k] == tray_icon_byte(q, k),
        decreases 32 * 32 - p,
    {
        let x = (p % 32) as i32;
        let y = (p / 32) as i32;
        let r = TRAY_ICON_RADIUS;
        let s = TRAY_ICON_SIZE as i32;
        let in_bounds = if x < r && y < r {
            corner_test(x, y, r, r)
        } else if x >= s - r && y < r {
            corner_test(x, y, s - r - 1, r)
        } else if x < r && y >= s - r {
            corner_test(x, y, r, s - r - 1)
        } else if x >= s - r && y >= s - r {
            corner_test(x, y, s - r - 1, s - r - 1)
        } else {
            true
        };
        if in_bounds {
            rgba.push(99);
            rgba.push(102);
            rgba.push(241);
            rgba.push(255);
        } else {
            rgba.push(0);
            rgba.push(0);
            rgba.push(0);
            rgba.push(0);
        }
        p += 1;
    }
    rgba
}

/// The icon is a rounded square: symmetric left-right and top-bottom, its
/// corner pixels cut off, its middle row and column fully covered.
pub proof fn lemma_tray_icon_shape(x: int, y: int)
    requires
        0 <= x < 32,
        0 <= y < 32,
    ensures
        on_tray_icon(x, y) == on_tray_icon(31 - x, y),
        on_tray_icon(x, y) == on_tray_icon(x, 31 - y),
        !on_tray_icon(0, 0) && !on_tray_icon(31, 0) && !on_tray_icon(0, 31) && !on_tray_icon(31, 31),
        on_tray_icon(x, 16) && on_tray_icon(16, y),
{
    assert((31 - x - 23) * (31 - x - 23) == (x - 8) * (x - 8)) by (nonlinear_arith);
    assert((31 - x - 8) * (31 - x - 8) == (x - 23) * (x - 23)) by (nonlinear_arith);
    assert((31 - y - 23) * (31 - y - 23) == (y - 8) * (y - 8)) by (nonlinear_arith);
    assert((31 - y - 8) * (31 - y - 8) == (y - 23) * (y - 23)) by (nonlinear_arith);
}

} // verus!
