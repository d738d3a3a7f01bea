//! A turn: from the key that was pressed to what the game does.

use crate::game::{Dir, Game};
use vstd::prelude::*;

verus! {

/// The key for a step to the left: `h`.
pub const KEY_LEFT: u8 = 104;

/// The key for a step up: `j`.
pub const KEY_UP: u8 = 106;

/// The key for a step down: `k`.
pub const KEY_DOWN: u8 = 107;

/// The key for a step to the right: `l`.
pub const KEY_RIGHT: u8 = 108;

/// The key that passes the turn: `,`.
pub const KEY_PASS: u8 = 44;

/// The key that ends the game: `q`.
pub const KEY_QUIT: u8 = 113;

/// What a key asks for.
#[derive(Clone, Copy, Debug, PartialEq, Eq, Structural)]
pub enum Command {
    /// A step of the player.
    Move(Dir),
    /// Nothing: the turn passes.
    Pass,
    /// The end of the game.
    Quit,
}

/// How a turn ends that changes nothing it should not.
#[derive(Clone, Copy, Debug, PartialEq, Eq, Structural)]
pub enum Turn {
    /// The player took its step.
    Moved,
    /// The turn passed.
    Passed,
    /// The game is over.
    Quit,
}

/// Why a turn did nothing. The game goes on.
#[derive(Clone, Copy, Debug, PartialEq, Eq, Structural)]
pub enum TurnError {
    /// The step would have left the grid.
    OutOfBounds,
    /// The key asks for nothing.
    UnknownCommand(u8),
}

/// What a key asks for, if anything.
pub open spec fn command_of(key: u8) -> Option<Command> {
    if key == KEY_LEFT {
        Some(Command::Move(Dir::Left))
    } else if key == KEY_UP {
        Some(Command::Move(Dir::Up))
    } else if key == KEY_DOWN {
        Some(Command::Move(Dir::Down))
    } else if key == KEY_RIGHT {
        Some(Command::Move(Dir::Right))
    } else if key == KEY_PASS {
        Some(Command::Pass)
    } else if key == KEY_QUIT {
        Some(Command::Quit)
    } else {
        None
    }
}

/// What a key asks for, if anything.
pub fn parse_command(key: u8) -> (command: Option<Command>)
    ensures
        command == command_of(key),
{
    if key == KEY_LEFT {
        Some(Command::Move(Dir::Left))
    } else if key == KEY_UP {
        Some(Command::Move(Dir::Up))
    } else if key == KEY_DOWN {
        Some(Command::Move(Dir::Down))
    } else if key == KEY_RIGHT {
        Some(Command::Move(Dir::Right))
    } else if key == KEY_PASS {
        Some(Command::Pass)
    } else if key == KEY_QUIT {
        Some(Command::Quit)
    } else {
        None
    }
}

impl Game {
    /// Plays one turn on the key that was pressed.
    ///
    /// A key for a step moves the player, or is refused with `OutOfBounds`
    /// where the step would leave the grid. The keys that pass and quit say
    /// so and change nothing, and any other key is refused with
    /// `UnknownCommand`. A refused turn leaves the game as it was.
    pub fn turn(&mut self, key: u8) -> (r: Result<Turn, TurnError>)
        requires
            old(self).wf(),
        ensures
            final(self).wf(),
            match command_of(key) {
                Some(Command::Move(dir)) => {
                    &&& final(self)@ == old(self)@.step(dir)
                    &&& r == if old(self)@.can_move(dir) {
                        Ok::<Turn, TurnError>(Turn::Moved)
                    } else {
                        Err::<Turn, TurnError>(TurnError::OutOfBounds)
                    }
                },
                Some(Command::Pass) => r == Ok::<Turn, TurnError>(Turn::Passed),
                Some(Command::Quit) => r == Ok::<Turn, TurnError>(Turn::Quit),
                None => r == Err::<Turn, TurnError>(TurnError::UnknownCommand(key)),
            },
            r != Ok::<Turn, TurnError>(Turn::Moved) ==> *final(self) == *old(self),
    {
        match parse_command(key) {
            Some(Command::Move(dir)) => match self.move_player(dir) {
                Ok(()) => Ok(Turn::Moved),
                Err(_) => Err(TurnError::OutOfBounds),
            },
            Some(Command::Pass) => Ok(Turn::Passed),
            Some(Command::Quit) => Ok(Turn::Quit),
            None => Err(TurnError::UnknownCommand(key)),
        }
    }
}

} // verus!
