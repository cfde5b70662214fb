//! What the tray icon's menu can ask for, and the icon's pixels.

use vstd::prelude::*;

verus! {

/// What the user picked in the tray menu.
#[derive(Debug, Clone, Copy, PartialEq, Eq, Structural)]
pub enum TrayAction {
    Show,
    Exit,
}

/// The icon is a square of this many pixels a side.
pub const ICON_SIDE: u32 = 32;

/// The action that a menu event stands for: the item whose id the event
/// carries, the first of the two where both have that id, or none.
pub fn action_for(event_id: &String, show_item_id: &String, exit_item_id: &String) -> (action:
    Option<TrayAction>)
    ensures
        action == (if event_id@ == show_item_id@ {
            Some(TrayAction::Show)
        } else if event_id@ == exit_item_id@ {
            Some(TrayAction::Exit)
        } else {
            None
        }),
{
    if *event_id == *show_item_id {
        Some(TrayAction::Show)
    } else if *event_id == *exit_item_id {
        Some(TrayAction::Exit)
    } else {
        None
    }
}

/// One byte of the icon: every pixel is red 0, green 100, blue 255, alpha 255.
pub open spec fn icon_byte(index: int) -> u8 {
    if index % 4 == 0 {
        0
    } else if index % 4 == 1 {
        100
    } else {
        255
    }
}

/// The icon as RGBA bytes, row by row: a plain blue square.
pub fn icon_rgba() -> (rgba: Vec<u8>)
    ensures
        rgba@.len() == ICON_SIDE * ICON_SIDE * 4,
        forall|i: int| 0 <= i < rgba@.len() ==> rgba@[i] == icon_byte(i),
{
    let mut rgba: Vec<u8> = Vec::new();
    let mut pixel: u32 = 0;
    while pixel < ICON_SIDE * ICON_SIDE
        invariant
            pixel <= ICON_SIDE * ICON_SIDE,
            rgba@.len() == pixel * 4,
            forall|i: int| 0 <= i < rgba@.len() ==> rgba@[i] == icon_byte(i),
        decreases ICON_SIDE * ICON_SIDE - pixel,
    {
        rgba.push(0);
        rgba.push(100);
        rgba.push(255);
        rgba.push(255);
        pixel += 1;
    }
    rgba
}

} // verus!
