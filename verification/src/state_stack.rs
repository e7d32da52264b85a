//! The game's coarse states and the stack that nests them.
//!
//! Entering a nested state (a dialog over play, play over the menu) pushes
//! it; leaving goes back to whatever lies underneath.

use vstd::prelude::*;

verus! {

/// The coarse states the game moves between.
#[derive(Clone, Copy, Debug, PartialEq, Eq, Hash, Structural)]
pub enum GameState {
    /// Localized text is being loaded.
    TextLoading,
    /// Game assets are being loaded.
    AssetLoading,
    /// The world simulation runs.
    Playing,
    /// A dialog is open over the world.
    Dialog,
    /// The menu is shown.
    Menu,
}

/// The stack of entered states, outermost first.
#[derive(Debug)]
pub struct StateStack {
    stack: Vec<GameState>,
}

impl View for StateStack {
    type V = Seq<GameState>;

    closed spec fn view(&self) -> Seq<GameState> {
        self.stack@
    }
}

impl Default for StateStack {
    fn default() -> (r: Self)
        ensures
            r@ == Seq::<GameState>::empty(),
    {
        StateStack { stack: Vec::new() }
    }
}

impl StateStack {
    /// Enters a state on top of the current one and names it, so the caller
    /// can switch to it.
    pub fn push(&mut self, input: GameState) -> (r: GameState)
        ensures
            final(self)@ == old(self)@.push(input),
            r == input,
    {
        self.stack.push(input);
        input
    }

    /// Leaves the topmost state and names the state underneath, so the
    /// caller can switch back to it.
    pub fn back(&mut self) -> (r: GameState)
        requires
            old(self)@.len() >= 2,
        ensures
            final(self)@ == old(self)@.drop_last(),
            r == old(self)@[old(self)@.len() - 2],
    {
        self.stack.pop();
        self.stack[self.stack.len() - 1]
    }
}

} // verus!
