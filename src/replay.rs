use vstd::prelude::*;
use vstd::string::StringSliceAdditionalSpecFns;
use crate::board::{
    Board, Cell, blank, computer_pick, empty_cells, lemma_empties,
    winner,
};
use crate::decode::{fields, lemma_fields_split, move_of, next_comma, number_in, seed_of};
use crate::rng::{SimpleRNG, lcg_step};

verus! {

/// One round from board `c` and generator state `s` when the human plays
/// cell `m`: whether the game ended there (and whether the human won), then
/// the board and generator state after the round.
pub open spec fn round(c: Seq<Cell>, s: u64, m: usize) -> (Option<bool>, Seq<Cell>, u64) {
    if c[m as int] != Cell::Empty {
        (Some(false), c, s)
    } else {
        let c1 = c.update(m as int, Cell::Z);
        if winner(c1) is Some {
            (Some(winner(c1) == Some(Cell::Z)), c1, s)
        } else if empty_cells(c1).len() == 0 {
            (Some(false), c1, s)
        } else {
            let c2 = c1.update(computer_pick(c1, s) as int, Cell::K);
            if winner(c2) == Some(Cell::K) {
                (Some(false), c2, lcg_step(s))
            } else {
                (None, c2, lcg_step(s))
            }
        }
    }
}

/// Whether the human wins when the game goes on from board `c` and
/// generator state `s` with the move tokens `toks`.
pub open spec fn replay(c: Seq<Cell>, s: u64, toks: Seq<Seq<u8>>) -> bool
    decreases toks.len(),
{
    if toks.len() == 0 {
        false
    } else {
        match move_of(toks[0]) {
            None => false,
            Some(m) => {
                let (ended, c2, s2) = round(c, s, m);
                match ended {
                    Some(won) => won,
                    None => replay(c2, s2, toks.drop_first()),
                }
            },
        }
    }
}

/// Whether the transcript `seed,move,move,...` records a legal game that
/// the human wins.
pub open spec fn player_wins(b: Seq<u8>) -> bool {
    let f = fields(b);
    match seed_of(f[0]) {
        None => false,
        Some(s) => replay(blank(), s, f.drop_first()),
    }
}

/// Plays one round: the human's mark at `position`, then, unless the game
/// ended, the computer's drawn move. Returns whether the game ended there and,
/// if so, whether the human won.
pub fn play_round(board: &mut Board, rng: &mut SimpleRNG, position: usize) -> (r: Option<bool>)
    requires
        position < 9,
    ensures
        (r, final(board).cells@, final(rng).state) == round(
            old(board).cells@,
            old(rng).state,
            position,
        ),
{
    if !board.make_move(position, Cell::Z) {
        return Some(false);
    }
    if let Some(w) = board.check_winner() {
        return Some(w == Cell::Z);
    }
    let empty = board.get_empty_cells();
    if empty.len() == 0 {
        return Some(false);
    }
    proof {
        lemma_empties(board.cells@, 9);
    }
    let i = rng.rand_range(0, empty.len() - 1);
    let computer_move = empty[i];
    board.make_move(computer_move, Cell::K);
    if board.check_winner() == Some(Cell::K) {
        return Some(false);
    }
    None
}

/// Replays the transcript `seed,move,move,...` and tells whether it is a
/// legal game that the human wins. Moves are read one at a time as the game
/// goes on; tokens after the end of the game are not looked at.
pub fn verify_player_win(input: &str) -> (r: bool)
    ensures
        r == player_wins(input.spec_bytes()),
{
    let b = input.as_bytes();
    let n = b.len();
    let ghost full = b@;
    let j = next_comma(b, 0);
    proof {
        lemma_fields_split(full, 0, j as int);
        assert(full.subrange(0, n as int) =~= full);
    }
    let ghost f = fields(full);
    assert(f[0] == full.subrange(0, j as int));
    let seed = match number_in(b, 0, j, u64::MAX) {
        Some(v) => v,
        None => return false,
    };
    assert(seed_of(f[0]) == Some(seed));
    if j == n {
        assert(f.drop_first().len() == 0);
        return false;
    }
    assert(f.drop_first() =~= fields(full.subrange(j + 1, n as int)));
    let mut rng = SimpleRNG::new(seed);
    let mut board = Board::new();
    let mut start = j + 1;
    loop
        invariant
            b@ == full,
            input.spec_bytes() == full,
            n == full.len(),
            start <= n,
            replay(board.cells@, rng.state, fields(full.subrange(start as int, n as int)))
                == player_wins(full),
        decreases n - start,
    {
        let e = next_comma(b, start);
        proof {
            lemma_fields_split(full, start as int, e as int);
        }
        let ghost toks = fields(full.subrange(start as int, n as int));
        assert(toks[0] == full.subrange(start as int, e as int));
        let position = match number_in(b, start, e, 8) {
            Some(v) => v as usize,
            None => {
                assert(move_of(toks[0]) is None);
                return false;
            },
        };
        assert(move_of(toks[0]) == Some(position));
        let ghost c0 = board.cells@;
        let ghost s0 = rng.state;
        if let Some(won) = play_round(&mut board, &mut rng, position) {
            assert(round(c0, s0, position).0 == Some(won));
            return won;
        }
        if e == n {
            assert(toks.drop_first().len() == 0);
            return false;
        }
        assert(toks.drop_first() =~= fields(full.subrange(e + 1, n as int)));
        start = e + 1;
    }
}

} // verus!
