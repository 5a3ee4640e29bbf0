//! The main menu, as far as the game's logic goes: which button stands
//! for which choice. Where the buttons are drawn is the business of
//! whoever draws them.

use vstd::prelude::*;

verus! {

/// The index of the button that starts the game.
pub const START_BUTTON: u8 = 4;

/// The index of the button that quits.
pub const QUIT_BUTTON: u8 = 5;

/// What the player can choose in the main menu.
#[derive(Clone, Copy, Debug, PartialEq, Eq, Structural)]
pub enum MenuChoice {
    /// Play.
    Start,
    /// Leave the program.
    Quit,
}

/// The choice that the button with this index stands for, if any.
pub open spec fn choice_of(index: u8) -> Option<MenuChoice> {
    if index == START_BUTTON {
        Some(MenuChoice::Start)
    } else if index == QUIT_BUTTON {
        Some(MenuChoice::Quit)
    } else {
        None
    }
}

/// The choice that the button with this index stands for; `None` for an
/// index that belongs to no button.
pub fn choice_at(index: u8) -> (choice: Option<MenuChoice>)
    ensures
        choice == choice_of(index),
{
    if index == START_BUTTON {
        Some(MenuChoice::Start)
    } else if index == QUIT_BUTTON {
        Some(MenuChoice::Quit)
    } else {
        None
    }
}

} // verus!
