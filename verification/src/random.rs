//! Random-versus-random simulation: a single game, and batches of games
//! aggregated into a [`Tally`].

use crate::board::{full_spec, gravity_ok, lemma_full_iff_no_slots, winner_spec, Board, Token};
use crate::rng::random_below;
use crate::tally::Tally;
use vstd::prelude::*;

verus! {

/// Plays one complete game between two players who both pick uniformly
/// random legal moves on a fresh board, and returns its outcome: the
/// winner's token, or `Empty` for a draw. The first player is `Red`, or is
/// drawn at random when `rand_first_player` is set. Which game unfolds
/// depends on the random source, but every call plays to the end: the
/// result is the outcome of some terminal position — a 42-cell grid under
/// gravity that is full or already won — so `Empty` comes back only for a
/// genuine draw on a full board.
pub fn round(rand_first_player: bool) -> (winner: Token)
    ensures
        exists|g: Seq<Token>|
            #![trigger winner_spec(g)]
            g.len() == 42 && gravity_ok(g) && (full_spec(g) || winner_spec(g) != Token::Empty)
                && winner == winner_spec(g),
{
    let mut board = Board::new();
    let mut current = if rand_first_player {
        if random_below(2) == 0 {
            Token::Red
        } else {
            Token::Yellow
        }
    } else {
        Token::Red
    };

    loop
        invariant
            board.wf(),
            gravity_ok(board.grid_seq()),
            current != Token::Empty,
        ensures
            board.wf(),
            gravity_ok(board.grid_seq()),
            full_spec(board.grid_seq()) || winner_spec(board.grid_seq()) != Token::Empty,
        decreases board.slots_seq().len(),
    {
        if board.is_full() {
            break;
        }
        if board.check_winner() != Token::Empty {
            break;
        }
        proof {
            // not full, so a droppable entry remains and the move lands
            lemma_full_iff_no_slots(&board);
        }
        board.random_stroke(current);
        current = if current == Token::Red {
            Token::Yellow
        } else {
            Token::Red
        };
    }
    let winner = board.check_winner();
    proof {
        // the final board itself witnesses the terminal position
        assert(board.grid_seq().len() == 42 && winner == winner_spec(board.grid_seq()));
    }
    winner
}

/// Plays `number_rounds` random games, as one simulation worker does, and
/// tallies their outcomes. Every game is accounted for: the tally's total is
/// exactly `number_rounds`.
pub fn rounds(number_rounds: u64, rand_first_player: bool) -> (t: Tally)
    ensures
        t.total() == number_rounds,
{
    let mut t = Tally::new();
    for i in 0..number_rounds
        invariant
            t.total() == i,
    {
        let outcome = round(rand_first_player);
        t.record(outcome);
    }
    t
}

} // verus!
