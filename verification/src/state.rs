//! The states of the application, the actions that move it from one to
//! the next, and the session that holds a state together with the game.

use crate::gameboard::BoardError;
use crate::gameboard_controller::GameboardController;
use crate::grid::{flag_toggled, in_bounds, mine_positions, revealed, Grid};
use crate::mainmenu::{choice_at, choice_of, MenuChoice};
use vstd::prelude::*;

verus! {

/// What the application shows and which part of it takes the input.
#[derive(Clone, Copy, Debug, PartialEq, Eq, Structural)]
pub enum State {
    /// The main menu; the application starts here.
    MainMenu,
    /// The board of the running game.
    Board,
    /// The application is to end. No action leads out of this state.
    Exiting,
}

/// What the player did, freed of pixels and key codes.
#[derive(Clone, Copy, Debug, PartialEq, Eq, Structural)]
pub enum Action {
    /// The menu button with this index was activated.
    Button(u8),
    /// A primary click on the cell at `(x, y)`: open it.
    Open { x: usize, y: usize },
    /// A secondary click on the cell at `(x, y)`: toggle its flag.
    Flag { x: usize, y: usize },
    /// The escape key.
    Escape,
    /// The window is asked to close.
    Close,
}

/// The state that follows `state` on `action`.
///
/// Closing the window ends the application from anywhere. Escape leads
/// from the board to the menu and from the menu out. In the menu the
/// start button leads to the board and the quit button out. Everything
/// else leaves the state as it is, and nothing leaves `Exiting`.
pub open spec fn next_state(state: State, action: Action) -> State {
    match (state, action) {
        (State::Exiting, _) => State::Exiting,
        (_, Action::Close) => State::Exiting,
        (State::MainMenu, Action::Escape) => State::Exiting,
        (State::Board, Action::Escape) => State::MainMenu,
        (State::MainMenu, Action::Button(index)) => match choice_of(index) {
            Some(MenuChoice::Start) => State::Board,
            Some(MenuChoice::Quit) => State::Exiting,
            None => State::MainMenu,
        },
        (state, _) => state,
    }
}

/// The grid after `action` arrived in `state`: only a click on a cell
/// while the board is shown changes it.
pub open spec fn played(state: State, g: Grid, action: Action) -> Grid {
    match (state, action) {
        (State::Board, Action::Open { x, y }) => revealed(g, x as int, y as int),
        (State::Board, Action::Flag { x, y }) => flag_toggled(g, x as int, y as int),
        _ => g,
    }
}

/// `action` in `state` is a click on a cell that the grid does not have.
pub open spec fn misses(state: State, g: Grid, action: Action) -> bool {
    state is Board && match action {
        Action::Open { x, y } => !in_bounds(g, x as int, y as int),
        Action::Flag { x, y } => !in_bounds(g, x as int, y as int),
        _ => false,
    }
}

impl State {
    /// The state that follows this one on `action`.
    pub fn next(self, action: Action) -> (next: State)
        ensures
            next == next_state(self, action),
    {
        match (self, action) {
            (State::Exiting, _) => State::Exiting,
            (_, Action::Close) => State::Exiting,
            (State::MainMenu, Action::Escape) => State::Exiting,
            (State::Board, Action::Escape) => State::MainMenu,
            (State::MainMenu, Action::Button(index)) => match choice_at(index) {
                Some(MenuChoice::Start) => State::Board,
                Some(MenuChoice::Quit) => State::Exiting,
                None => State::MainMenu,
            },
            (state, _) => state,
        }
    }
}

/// A request to close the window leads to `Exiting` from every state.
pub proof fn lemma_close_always_exits(state: State)
    ensures
        next_state(state, Action::Close) == State::Exiting,
{
}

/// No action leads out of `Exiting`.
pub proof fn lemma_exiting_is_final(action: Action)
    ensures
        next_state(State::Exiting, action) == State::Exiting,
{
}

/// One run of the application: the state it is in and the game.
pub struct Session {
    /// The state the application is in.
    pub state: State,
    /// The game, which takes the clicks while the board is shown.
    pub controller: GameboardController,
}

impl Session {
    /// The game's board is well formed.
    pub open spec fn wf(&self) -> bool {
        self.controller.wf()
    }

    /// A session that starts in the main menu.
    pub fn new(controller: GameboardController) -> (session: Session)
        requires
            controller.wf(),
        ensures
            session.wf(),
            session.state == State::MainMenu,
            session.controller == controller,
    {
        Session { state: State::MainMenu, controller }
    }

    /// Takes one action: hands a click on a cell to the game while the
    /// board is shown, and moves to the state that follows.
    ///
    /// The result is the new state, or `OutOfBounds` for a click on a
    /// cell that the board does not have; the state is then the one
    /// that follows all the same, and the board is unchanged.
    pub fn dispatch(&mut self, action: Action) -> (r: Result<State, BoardError>)
        requires
            old(self).wf(),
        ensures
            final(self).wf(),
            final(self).state == next_state(old(self).state, action),
            final(self).controller.selected_cell == old(self).controller.selected_cell,
            final(self).controller.gameboard@ == played(
                old(self).state,
                old(self).controller.gameboard@,
                action,
            ),
            mine_positions(final(self).controller.gameboard@) == mine_positions(
                old(self).controller.gameboard@,
            ),
            match r {
                Ok(state) => state == final(self).state && !misses(
                    old(self).state,
                    old(self).controller.gameboard@,
                    action,
                ),
                Err(e) => e == BoardError::OutOfBounds && misses(
                    old(self).state,
                    old(self).controller.gameboard@,
                    action,
                ),
            },
    {
        let state: State = self.state;
        self.state = state.next(action);
        match (state, action) {
            (State::Board, Action::Open { x, y }) => {
                match self.controller.open_cell(x, y) {
                    Ok(_) => Ok(self.state),
                    Err(e) => Err(e),
                }
            },
            (State::Board, Action::Flag { x, y }) => {
                match self.controller.toggle_flag(x, y) {
                    Ok(_) => Ok(self.state),
                    Err(e) => Err(e),
                }
            },
            _ => Ok(self.state),
        }
    }

    /// The application is to end.
    pub fn is_over(&self) -> (over: bool)
        ensures
            over == (self.state is Exiting),
    {
        match self.state {
            State::Exiting => true,
            _ => false,
        }
    }
}

} // verus!
