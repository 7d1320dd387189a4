pub mod cursor;
pub mod player_board;
pub mod players;
pub mod point;
pub mod rotation;
pub mod ship;
pub mod tile;

use vstd::prelude::*;

use crate::game::player_board::{
    all_ships_sunk, grid_mark, grid_set, lemma_shot_outcome_registrable, shot_next, shot_result,
    uniform_grid, BoardError, PlayerBoard, ShotView, ViewBoard,
};
use crate::game::point::Point;
use crate::game::ship::ShipBlueprint;
use crate::game::tile::Tile;

verus! {

/// The two sides of a match.
#[derive(Clone, Copy, PartialEq, Eq, Structural, Debug)]
pub enum CurrentPlayer {
    First,
    Second,
}

impl CurrentPlayer {
    /// The other side.
    pub open spec fn other(self) -> CurrentPlayer {
        match self {
            CurrentPlayer::First => CurrentPlayer::Second,
            CurrentPlayer::Second => CurrentPlayer::First,
        }
    }
}

/// What a finished match reports: the side that held the turn when a
/// fleet was destroyed, and that side's display name.
#[derive(Debug)]
pub struct GameResult {
    pub winner: CurrentPlayer,
    pub winner_name: String,
}

/// A capability to set a component up with a value, before play starts.
pub trait Setup<T> {
    fn setup(&mut self, arg: T);
}

/// A complete game mode, run to completion.  Implemented by front ends
/// that own the input and the rendering; the turn logic they drive lives
/// in [`SinglePlayer::turn`].
pub trait GameMode {
    fn run(self) -> GameResult;
}

/// One side's game state: its own fleet board, its fog-of-war view of the
/// opponent's board, and its display name.  Choosing the next target
/// (human input, machine, network) is deliberately not part of this
/// bundle: the turn controller takes the chosen coordinate as an
/// argument and re-validates it.
pub struct PlayerState {
    pub name: String,
    pub board: PlayerBoard,
    pub view: ViewBoard,
}

impl PlayerState {
    pub open spec fn wf(self) -> bool {
        self.board.wf() && self.view.wf()
    }

    /// A fresh side: an empty fleet board and an all-hidden view.
    pub fn new(name: String) -> (s: PlayerState)
        ensures
            s.wf(),
            s.name@ == name@,
            s.board@.ships.len() == 0,
            s.board@.grid == uniform_grid(Tile::Empty),
            s.view@ == uniform_grid(Tile::Hidden),
    {
        PlayerState { name, board: PlayerBoard::new(), view: ViewBoard::new() }
    }
}

/// What one call of [`SinglePlayer::turn`] did.
#[derive(Debug)]
pub enum TurnOutcome {
    /// The shot was rejected (out of bounds or already shot): the same
    /// side keeps the turn and nothing changed.
    Rejected(BoardError),
    /// A fleet was destroyed by this shot: the match is over.
    Finished(GameResult),
    /// The shot landed and play passes to the other side.
    Switched,
}

/// The turn controller of a match between two sides: it owns both sides'
/// state and alternates turns until one fleet is fully destroyed.
pub struct SinglePlayer {
    pub player1: PlayerState,
    pub player2: PlayerState,
    pub current_player: CurrentPlayer,
}

impl SinglePlayer {
    pub open spec fn wf(self) -> bool {
        self.player1.wf() && self.player2.wf()
    }

    /// The state of the side named by `cp`.
    pub open spec fn side(self, cp: CurrentPlayer) -> PlayerState {
        match cp {
            CurrentPlayer::First => self.player1,
            CurrentPlayer::Second => self.player2,
        }
    }

    /// A match about to start: the first side holds the turn.
    pub fn new(player1: PlayerState, player2: PlayerState) -> (g: SinglePlayer)
        ensures
            g.player1 == player1,
            g.player2 == player2,
            g.current_player is First,
    {
        Self { player1, player2, current_player: CurrentPlayer::First }
    }

    /// The side that holds the turn.
    pub fn current(&self) -> (s: &PlayerState)
        ensures
            *s == self.side(self.current_player),
    {
        match self.current_player {
            CurrentPlayer::First => &self.player1,
            CurrentPlayer::Second => &self.player2,
        }
    }

    /// The side that waits.
    pub fn opponent(&self) -> (s: &PlayerState)
        ensures
            *s == self.side(self.current_player.other()),
    {
        match self.current_player {
            CurrentPlayer::First => &self.player2,
            CurrentPlayer::Second => &self.player1,
        }
    }

    /// Both sides, the one that holds the turn first.
    pub fn players_mut(&mut self) -> (r: (&mut PlayerState, &mut PlayerState))
        ensures
            *r.0 == old(self).side(old(self).current_player),
            *r.1 == old(self).side(old(self).current_player.other()),
            final(self).current_player == old(self).current_player,
            final(self).side(old(self).current_player) == *final(r.0),
            final(self).side(old(self).current_player.other()) == *final(r.1),
    {
        match self.current_player {
            CurrentPlayer::First => (&mut self.player1, &mut self.player2),
            CurrentPlayer::Second => (&mut self.player2, &mut self.player1),
        }
    }

    /// Passes the turn to the other side, leaving both sides' state as it
    /// is.
    pub fn switch(&mut self)
        ensures
            final(self).current_player == old(self).current_player.other(),
            final(self).player1 == old(self).player1,
            final(self).player2 == old(self).player2,
    {
        self.current_player = match self.current_player {
            CurrentPlayer::First => CurrentPlayer::Second,
            CurrentPlayer::Second => CurrentPlayer::First,
        }
    }

    /// True when either side's fleet is fully destroyed.
    pub fn is_game_over(&self) -> (r: bool)
        ensures
            r == (all_ships_sunk(self.player1.board@) || all_ships_sunk(self.player2.board@)),
    {
        self.player1.board.is_game_over() || self.player2.board.is_game_over()
    }

    /// Plays one turn: the side that holds the turn fires at `target` on
    /// the opponent's board.
    ///
    /// A rejected shot (out of bounds, or a cell already shot) discards
    /// the turn: nothing changes and the same side is to choose again.  A
    /// landed shot updates the opponent's board, records the outcome on
    /// the shooter's fog-of-war view — which cannot fail, since the shot
    /// was just validated — and then either ends the match, with the side
    /// that holds the turn named winner, or passes the turn.
    pub fn turn(&mut self, target: Point) -> (r: TurnOutcome)
        requires
            old(self).wf(),
        ensures
            final(self).wf(),
            ({
                let cp = old(self).current_player;
                let att0 = old(self).side(cp);
                let def0 = old(self).side(cp.other());
                let att1 = final(self).side(cp);
                let def1 = final(self).side(cp.other());
                match shot_result(def0.board@, target) {
                    Err(e) => {
                        &&& r == TurnOutcome::Rejected(e)
                        &&& final(self).current_player == cp
                        &&& att1 == att0
                        &&& def1.board@ == def0.board@
                        &&& def1.view == def0.view
                        &&& def1.name == def0.name
                    },
                    Ok(outcome) => {
                        &&& def1.board@ == shot_next(def0.board@, target)
                        &&& def1.view == def0.view
                        &&& def1.name == def0.name
                        &&& att1.board == att0.board
                        &&& att1.name == att0.name
                        &&& att1.view@ == match outcome {
                            ShotView::Hit => grid_set(att0.view@, target, Tile::Hit),
                            ShotView::Miss => grid_set(att0.view@, target, Tile::Miss),
                            ShotView::ShipSunk(cells) => grid_mark(
                                att0.view@,
                                cells,
                                Tile::SunkenShip,
                            ),
                        }
                        &&& if all_ships_sunk(att1.board@) || all_ships_sunk(def1.board@) {
                            (r matches TurnOutcome::Finished(g) && g.winner == cp
                                && g.winner_name@ == att0.name@) && final(self).current_player
                                == cp
                        } else {
                            r == TurnOutcome::Switched && final(self).current_player == cp.other()
                        }
                    },
                }
            }),
    {
        let ghost cp = self.current_player;
        let ghost def0 = self.side(cp.other());
        let (curr, opp) = self.players_mut();
        let shot = match opp.board.process_shot(target) {
            Err(e) => {
                return TurnOutcome::Rejected(e);
            },
            Ok(shot) => shot,
        };
        proof {
            lemma_shot_outcome_registrable(def0.board@, target);
        }
        match curr.view.register_shot(shot, target) {
            Ok(()) => {},
            Err(_) => {
                proof {
                    assert(false);
                }
            },
        }
        if self.is_game_over() {
            let winner_name = self.current().name.clone();
            return TurnOutcome::Finished(GameResult { winner: self.current_player, winner_name });
        }
        self.switch();
        TurnOutcome::Switched
    }
}

} // verus!
