//! The log of a game: one entry for everything that happened, in order.

use vstd::prelude::*;

verus! {

/// One step of a game as the log records it.
#[derive(Debug, Copy, Clone, PartialEq, Eq, Structural)]
pub enum GameEvent {
    Started,
    Shuffled,
    Dealt,
    Player1Wipped,
    Player1Played,
    Player1Scored,
    Player2Wipped,
    Player2Played,
    Player2Scored,
    RoundOver,
    GameOver,
}

/// The two seats at the table.
#[derive(Debug, Copy, Clone, PartialEq, Eq, Structural)]
pub enum Seat {
    One,
    Two,
}

impl Seat {
    /// The seat across the table.
    pub open spec fn other(self) -> Seat {
        match self {
            Seat::One => Seat::Two,
            Seat::Two => Seat::One,
        }
    }

    /// The entry for a capture by the player at this seat.
    pub fn scored_event(self) -> (event: GameEvent)
        ensures
            event == self.scored(),
    {
        match self {
            Seat::One => GameEvent::Player1Scored,
            Seat::Two => GameEvent::Player2Scored,
        }
    }

    /// The entry for a sweep of the middle by the player at this seat.
    pub fn wipped_event(self) -> (event: GameEvent)
        ensures
            event == self.wipped(),
    {
        match self {
            Seat::One => GameEvent::Player1Wipped,
            Seat::Two => GameEvent::Player2Wipped,
        }
    }

    /// The entry that closes the turn of the player at this seat.
    pub fn played_event(self) -> (event: GameEvent)
        ensures
            event == self.played(),
    {
        match self {
            Seat::One => GameEvent::Player1Played,
            Seat::Two => GameEvent::Player2Played,
        }
    }

    /// The entry for a capture by the player at this seat.
    pub open spec fn scored(self) -> GameEvent {
        match self {
            Seat::One => GameEvent::Player1Scored,
            Seat::Two => GameEvent::Player2Scored,
        }
    }

    /// The entry for a sweep of the middle by the player at this seat.
    pub open spec fn wipped(self) -> GameEvent {
        match self {
            Seat::One => GameEvent::Player1Wipped,
            Seat::Two => GameEvent::Player2Wipped,
        }
    }

    /// The entry that closes the turn of the player at this seat.
    pub open spec fn played(self) -> GameEvent {
        match self {
            Seat::One => GameEvent::Player1Played,
            Seat::Two => GameEvent::Player2Played,
        }
    }
}

/// The seat of the player a capture entry belongs to.
pub open spec fn scorer_of(event: GameEvent) -> Option<Seat> {
    match event {
        GameEvent::Player1Scored => Some(Seat::One),
        GameEvent::Player2Scored => Some(Seat::Two),
        _ => None,
    }
}

/// The seat of the player whose capture is the last one in the log, if the
/// log holds a capture.
pub open spec fn last_scorer(log: Seq<GameEvent>) -> Option<Seat>
    decreases log.len(),
{
    if log.len() == 0 {
        None
    } else if scorer_of(log.last()) is Some {
        scorer_of(log.last())
    } else {
        last_scorer(log.drop_last())
    }
}

/// A log is closed once its last entry is `GameOver`.
pub open spec fn is_over(log: Seq<GameEvent>) -> bool {
    log.len() > 0 && log.last() == GameEvent::GameOver
}

/// Entries that are no captures leave the last scorer as it was.
pub proof fn lemma_last_scorer_skips(log: Seq<GameEvent>, more: Seq<GameEvent>)
    requires
        forall|k: int| 0 <= k < more.len() ==> scorer_of(#[trigger] more[k]) is None,
    ensures
        last_scorer(log + more) == last_scorer(log),
    decreases more.len(),
{
    if more.len() == 0 {
        assert(log + more =~= log);
    } else {
        assert((log + more).drop_last() =~= log + more.drop_last());
        assert((log + more).last() == more[more.len() - 1]);
        lemma_last_scorer_skips(log, more.drop_last());
    }
}

/// Looks the log through from its end for the last capture.
pub fn find_last_scorer(log: &Vec<GameEvent>) -> (seat: Option<Seat>)
    ensures
        seat == last_scorer(log@),
{
    let mut index: usize = log.len();
    assert(log@.take(index as int) =~= log@);
    while index > 0
        invariant
            index <= log@.len(),
            last_scorer(log@) == last_scorer(log@.take(index as int)),
        decreases index,
    {
        index -= 1;
        let event = log[index];
        proof {
            let seen = log@.take(index + 1);
            assert(seen.last() == event);
            assert(seen.drop_last() =~= log@.take(index as int));
        }
        match event {
            GameEvent::Player1Scored => {
                return Some(Seat::One);
            },
            GameEvent::Player2Scored => {
                return Some(Seat::Two);
            },
            _ => {},
        }
    }
    None
}

} // verus!
