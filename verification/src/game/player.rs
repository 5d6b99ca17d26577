use vstd::prelude::*;

verus! {

/// One of the two players.  Player 1 moves first.
#[derive(Debug, PartialEq, Eq, Structural, Clone, Copy)]
pub enum Player {
    Player1,
    Player2,
}

impl Player {
    /// The player this one plays against.
    pub open spec fn opponent_spec(self) -> Player {
        match self {
            Player::Player1 => Player::Player2,
            Player::Player2 => Player::Player1,
        }
    }

    /// Returns the other player.
    pub fn opponent(&self) -> (r: Player)
        ensures
            r == self.opponent_spec(),
    {
        match self {
            Player::Player1 => Player::Player2,
            Player::Player2 => Player::Player1,
        }
    }
}

} // verus!
