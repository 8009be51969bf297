//! Whose turn it is, and how many players are still in the game.
use crate::travel::Standing;
use vstd::prelude::*;

verus! {

/// Number of players whose token has not left the board.
pub open spec fn count_in<P, L>(tokens: Seq<Standing<P, L>>) -> nat
    decreases tokens.len(),
{
    if tokens.len() == 0 {
        0
    } else {
        count_in(tokens.drop_last()) + (if tokens.last() is Out {
            0nat
        } else {
            1nat
        })
    }
}

/// The player after `turn`, going round.
pub open spec fn successor(turn: nat, players: nat) -> nat {
    if turn + 1 < players {
        turn + 1
    } else {
        0
    }
}

/// The first player after `turn`, going round, whose token has not left the
/// board, among the next `tries` players; the last of these if all of them
/// have left.
pub open spec fn next_in<P, L>(tokens: Seq<Standing<P, L>>, turn: nat, tries: nat) -> nat
    decreases tries,
{
    if tries == 0 || tokens.len() == 0 {
        turn
    } else {
        let next = successor(turn, tokens.len());
        if tokens[next as int] is Out {
            next_in(tokens, next, (tries - 1) as nat)
        } else {
            next
        }
    }
}

/// How many players come after `turn`, going round, before player `q`.
pub open spec fn wait_of(turn: nat, q: nat, players: nat) -> nat {
    if q > turn {
        (q - turn - 1) as nat
    } else {
        (q + players - turn - 1) as nat
    }
}

/// The next player is a player.
pub proof fn lemma_next_in_range<P, L>(tokens: Seq<Standing<P, L>>, turn: nat, tries: nat)
    requires
        turn < tokens.len() || (tokens.len() == 0 && turn == 0),
    ensures
        next_in(tokens, turn, tries) < tokens.len() || (tokens.len() == 0 && next_in(
            tokens,
            turn,
            tries,
        ) == 0),
    decreases tries,
{
    if tries > 0 && tokens.len() > 0 {
        lemma_next_in_range(tokens, successor(turn, tokens.len()), (tries - 1) as nat);
    }
}

/// Where a player is still in the game and the tries reach that player, the
/// next player is still in the game.
pub proof fn lemma_next_in_found<P, L>(tokens: Seq<Standing<P, L>>, turn: nat, tries: nat, q: nat)
    requires
        turn < tokens.len(),
        q < tokens.len(),
        !(tokens[q as int] is Out),
        wait_of(turn, q, tokens.len()) < tries,
    ensures
        next_in(tokens, turn, tries) < tokens.len(),
        !(tokens[next_in(tokens, turn, tries) as int] is Out),
    decreases tries,
{
    let next = successor(turn, tokens.len());
    if tokens[next as int] is Out {
        lemma_next_in_found(tokens, next, (tries - 1) as nat, q);
    }
}

/// Where some player is counted, some player is still in the game.
pub proof fn lemma_count_in_witness<P, L>(tokens: Seq<Standing<P, L>>) -> (q: nat)
    requires
        count_in(tokens) > 0,
    ensures
        q < tokens.len(),
        !(tokens[q as int] is Out),
    decreases tokens.len(),
{
    if tokens.last() is Out {
        let q = lemma_count_in_witness(tokens.drop_last());
        assert(tokens.drop_last()[q as int] == tokens[q as int]);
        q
    } else {
        (tokens.len() - 1) as nat
    }
}

/// Number of players whose token has not left the board.
pub fn count_playing<P, L>(tokens: &Vec<Standing<P, L>>) -> (n: usize)
    ensures
        n == count_in(tokens@),
{
    let mut n: usize = 0;
    let mut i: usize = 0;
    while i < tokens.len()
        invariant
            i <= tokens.len(),
            n <= i,
            n == count_in(tokens@.subrange(0, i as int)),
        decreases tokens.len() - i,
    {
        proof {
            let next = tokens@.subrange(0, i + 1);
            assert(next.drop_last() =~= tokens@.subrange(0, i as int));
        }
        match tokens[i] {
            Standing::Out => {},
            _ => {
                n += 1;
            },
        }
        i += 1;
    }
    assert(tokens@.subrange(0, i as int) =~= tokens@);
    n
}

/// The first player after `turn`, going round, whose token has not left the
/// board; `turn` itself if all others have left.
pub fn next_player<P, L>(tokens: &Vec<Standing<P, L>>, turn: u32) -> (r: u32)
    requires
        tokens.len() <= u32::MAX,
        turn < tokens.len() || (tokens.len() == 0 && turn == 0),
    ensures
        r == next_in(tokens@, turn as nat, tokens@.len()),
{
    let players: u32 = tokens.len() as u32;
    let mut at: u32 = turn;
    let mut tries: u32 = players;
    while tries > 0
        invariant
            players == tokens.len(),
            tries <= players,
            at < players || (players == 0 && at == 0),
            next_in(tokens@, turn as nat, players as nat) == next_in(tokens@, at as nat, tries as nat),
        decreases tries,
    {
        let next: u32 = if at + 1 < players {
            at + 1
        } else {
            0
        };
        match tokens[next as usize] {
            Standing::Out => {
                at = next;
                tries -= 1;
            },
            _ => {
                return next;
            },
        }
    }
    at
}

} // verus!
