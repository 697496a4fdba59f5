//! The decisions of an interactive read loop.
//!
//! The loop itself, with its prompt, its input and its interrupt signal,
//! belongs to the driver. What it decides at each prompt is here: one
//! interrupt clears the line and arms the loop, a second one in a row
//! quits, and anything else disarms it and reads a line.

use vstd::prelude::*;

verus! {

/// What the loop does after a prompt.
#[derive(Debug, Copy, Clone, PartialEq, Eq, Structural)]
pub enum ReplAction {
    /// Leave the loop.
    Quit,
    /// Wipe the prompt line and prompt again.
    ClearLine,
    /// Read a line and run it.
    ReadLine,
}

/// The state of the loop: whether the last prompt was interrupted.
#[derive(Debug, Copy, Clone, PartialEq, Eq, Structural)]
pub struct Repl {
    /// Whether one more interrupt quits.
    pub should_quit: bool,
}

/// The state after a prompt, and what the loop does then.
pub open spec fn prompted(state: Repl, interrupted: bool) -> (Repl, ReplAction) {
    if !interrupted {
        (Repl { should_quit: false }, ReplAction::ReadLine)
    } else if state.should_quit {
        (state, ReplAction::Quit)
    } else {
        (Repl { should_quit: true }, ReplAction::ClearLine)
    }
}

impl Repl {
    /// The state of a loop that has not prompted yet.
    pub fn new() -> (state: Self)
        ensures
            state == (Repl { should_quit: false }),
    {
        Repl { should_quit: false }
    }

    /// Takes note of a prompt, which an interrupt cut short or not, and
    /// says what the loop does next.
    pub fn on_prompt(&mut self, interrupted: bool) -> (action: ReplAction)
        ensures
            (*final(self), action) == prompted(*old(self), interrupted),
    {
        if !interrupted {
            self.should_quit = false;
            ReplAction::ReadLine
        } else if self.should_quit {
            ReplAction::Quit
        } else {
            self.should_quit = true;
            ReplAction::ClearLine
        }
    }
}

/// Whatever went before, the loop quits at a prompt exactly when that
/// prompt and the one before it were both interrupted.
pub proof fn lemma_quits_on_second_interrupt(state: Repl, first: bool, second: bool)
    ensures
        prompted(prompted(state, first).0, second).1 is Quit <==> first && second,
{
}

} // verus!
