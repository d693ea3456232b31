//! Player identities and the score ledger: exactly two players, each with
//! a score equal to the largest value among the cells it owns.

use vstd::prelude::*;

verus! {

/// One of the two players of a game.
#[derive(Clone, Copy, PartialEq, Eq, Structural, Debug)]
pub enum Player {
    One,
    Two,
}

impl Player {
    /// The other of the two players.
    pub open spec fn other_spec(self) -> Player {
        match self {
            Player::One => Player::Two,
            Player::Two => Player::One,
        }
    }

    /// The other of the two players.
    pub fn other(self) -> (p: Player)
        ensures
            p == self.other_spec(),
    {
        match self {
            Player::One => Player::Two,
            Player::Two => Player::One,
        }
    }
}

/// The two players' scores.
pub struct Ledger {
    pub one: u32,
    pub two: u32,
}

impl Ledger {
    /// The score the ledger holds for `p`.
    pub open spec fn score_spec(self, p: Player) -> u32 {
        match p {
            Player::One => self.one,
            Player::Two => self.two,
        }
    }

    /// Both players start with the same initial score.
    pub fn new(initial: u32) -> (l: Ledger)
        ensures
            l.score_spec(Player::One) == initial,
            l.score_spec(Player::Two) == initial,
    {
        Ledger { one: initial, two: initial }
    }

    /// The current score of `p`.
    pub fn score(&self, p: Player) -> (s: u32)
        ensures
            s == self.score_spec(p),
    {
        match p {
            Player::One => self.one,
            Player::Two => self.two,
        }
    }

    /// Raises `p`'s score to `claimed_value` if that is higher; the score
    /// never decreases, and the other player's score is untouched.
    pub fn update_score(&mut self, p: Player, claimed_value: u32)
        ensures
            final(self).score_spec(p) == if claimed_value > old(self).score_spec(p) {
                claimed_value
            } else {
                old(self).score_spec(p)
            },
            final(self).score_spec(p) >= old(self).score_spec(p),
            final(self).score_spec(p.other_spec()) == old(self).score_spec(p.other_spec()),
    {
        match p {
            Player::One => {
                if claimed_value > self.one {
                    self.one = claimed_value;
                }
            },
            Player::Two => {
                if claimed_value > self.two {
                    self.two = claimed_value;
                }
            },
        }
    }

    /// The player with the strictly higher score wins; an equal score goes
    /// to the first player, a deterministic tie-break.
    pub fn winner(&self) -> (w: Player)
        ensures
            self.score_spec(w) >= self.score_spec(w.other_spec()),
            self.one >= self.two ==> w == Player::One,
            self.two > self.one ==> w == Player::Two,
    {
        if self.two > self.one {
            Player::Two
        } else {
            Player::One
        }
    }
}

} // verus!
