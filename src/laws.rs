use vstd::prelude::*;
use crate::board::{
    Cell, blank, computer_pick, empty_cells, lemma_empties, lemma_full_iff_no_empties, line,
    line_taken, winner, winner_from,
};
use crate::decode::{fields, lemma_fields_split, move_of, seed_of};
use crate::replay::{player_wins, replay, round};
use crate::transcript::{ascii_bytes, decimal, lemma_decimal, lemma_transcript_fields, transcript_text};
use crate::decode::number_of;
use vstd::utf8::{encode_utf8, is_ascii_chars, is_ascii_chars_encode_utf8};

verus! {

/// A transcript that holds only a seed, with no move, is never a win.
pub proof fn law_seed_alone(b: Seq<u8>)
    requires
        forall|i: int| 0 <= i < b.len() ==> b[i] != 44,
    ensures
        !player_wins(b),
{
    lemma_fields_split(b, 0, b.len() as int);
    assert(b.subrange(0, b.len() as int) =~= b);
    assert(fields(b).drop_first().len() == 0);
}

/// Whatever moves follow, a transcript whose first field is not a seed is
/// never a win.
pub proof fn law_malformed_seed(t: Seq<u8>, rest: Seq<u8>)
    requires
        forall|i: int| 0 <= i < t.len() ==> t[i] != 44,
        seed_of(t) is None,
    ensures
        !player_wins(t + seq![44u8] + rest),
{
    let b = t + seq![44u8] + rest;
    lemma_fields_split(b, 0, t.len() as int);
    assert(b.subrange(0, b.len() as int) =~= b);
    assert(b.subrange(0, t.len() as int) =~= t);
}

/// A move token that is not a cell number (not a number, or 9 or more) ends
/// the replay where it stands: the outcome is what it was before that token,
/// and the tokens after it are never looked at.
pub proof fn law_invalid_move_token(
    c: Seq<Cell>,
    s: u64,
    pre: Seq<Seq<u8>>,
    bad: Seq<u8>,
    post: Seq<Seq<u8>>,
)
    requires
        move_of(bad) is None,
    ensures
        replay(c, s, pre + seq![bad] + post) == replay(c, s, pre),
    decreases pre.len(),
{
    let all = pre + seq![bad] + post;
    if pre.len() == 0 {
        assert(all[0] == bad);
    } else {
        assert(all[0] == pre[0]);
        assert(all.drop_first() =~= pre.drop_first() + seq![bad] + post);
        match move_of(pre[0]) {
            None => {},
            Some(m) => {
                let (ended, c2, s2) = round(c, s, m);
                law_invalid_move_token(c2, s2, pre.drop_first(), bad, post);
            },
        }
    }
}

/// The replay is a function of the transcript alone: equal transcripts give
/// equal outcomes.
pub proof fn law_deterministic(a: Seq<u8>, b: Seq<u8>)
    requires
        a == b,
    ensures
        player_wins(a) == player_wins(b),
{
}

/// When the game goes on after a move, a next human move onto the cell the
/// computer just took is illegal, and the transcript is not a win.
pub proof fn law_move_onto_computer_cell(
    c: Seq<Cell>,
    s: u64,
    t1: Seq<u8>,
    t2: Seq<u8>,
    rest: Seq<Seq<u8>>,
)
    requires
        c.len() == 9,
        move_of(t1) is Some,
        round(c, s, move_of(t1)->0).0 is None,
        move_of(t2) == Some(computer_pick(c.update(move_of(t1)->0 as int, Cell::Z), s)),
    ensures
        !replay(c, s, seq![t1, t2] + rest),
{
    let all = seq![t1, t2] + rest;
    let m = move_of(t1)->0;
    let c1 = c.update(m as int, Cell::Z);
    let k = computer_pick(c1, s);
    let (ended, c2, s2) = round(c, s, m);
    assert(all[0] == t1);
    assert(all.drop_first()[0] == t2);
    assert(c2 == c1.update(k as int, Cell::K));
    lemma_empties(c1, 9);
    assert(c2[k as int] == Cell::K);
    assert(round(c2, s2, k).0 == Some(false));
    assert(!replay(c2, s2, all.drop_first()));
}

/// A human move that fills the board without completing a line is a draw:
/// the transcript is not a win, whatever follows.
pub proof fn law_filling_move_draws(c: Seq<Cell>, s: u64, t: Seq<u8>, rest: Seq<Seq<u8>>)
    requires
        c.len() == 9,
        move_of(t) is Some,
        c[move_of(t)->0 as int] == Cell::Empty,
        winner(c.update(move_of(t)->0 as int, Cell::Z)) is None,
        forall|i: int|
            0 <= i < 9 ==> c.update(move_of(t)->0 as int, Cell::Z)[i] != Cell::Empty,
    ensures
        !replay(c, s, seq![t] + rest),
{
    let all = seq![t] + rest;
    assert(all[0] == t);
    lemma_full_iff_no_empties(c.update(move_of(t)->0 as int, Cell::Z));
}

/// Whether every token of `toks` is a cell number and every round they
/// make, from board `c` and generator state `s`, leaves the game going.
pub open spec fn rounds_continue(c: Seq<Cell>, s: u64, toks: Seq<Seq<u8>>) -> bool
    decreases toks.len(),
{
    if toks.len() == 0 {
        true
    } else {
        match move_of(toks[0]) {
            None => false,
            Some(m) => {
                let (ended, c2, s2) = round(c, s, m);
                ended is None && rounds_continue(c2, s2, toks.drop_first())
            },
        }
    }
}

/// The board and generator state after the rounds that `toks` make.
pub open spec fn after_rounds(c: Seq<Cell>, s: u64, toks: Seq<Seq<u8>>) -> (Seq<Cell>, u64)
    decreases toks.len(),
{
    if toks.len() == 0 {
        (c, s)
    } else {
        match move_of(toks[0]) {
            None => (c, s),
            Some(m) => {
                let (ended, c2, s2) = round(c, s, m);
                after_rounds(c2, s2, toks.drop_first())
            },
        }
    }
}

/// Rounds that leave the game going hand the replay on to the state they
/// reach, on a board of the same size.
pub proof fn lemma_replay_after_rounds(
    c: Seq<Cell>,
    s: u64,
    pre: Seq<Seq<u8>>,
    rest: Seq<Seq<u8>>,
)
    requires
        c.len() == 9,
        rounds_continue(c, s, pre),
    ensures
        replay(c, s, pre + rest) == replay(after_rounds(c, s, pre).0, after_rounds(c, s, pre).1, rest),
        after_rounds(c, s, pre).0.len() == 9,
    decreases pre.len(),
{
    if pre.len() == 0 {
        assert(pre + rest =~= rest);
    } else {
        let all = pre + rest;
        assert(all[0] == pre[0]);
        assert(all.drop_first() =~= pre.drop_first() + rest);
        let m = move_of(pre[0])->0;
        let (ended, c2, s2) = round(c, s, m);
        let c1 = c.update(m as int, Cell::Z);
        lemma_empties(c1, 9);
        lemma_replay_after_rounds(c2, s2, pre.drop_first(), rest);
    }
}

/// A board on which at most the cells `a` and `b` are taken has no
/// complete line among lines `k..8`.
pub proof fn lemma_two_marks_no_line(c: Seq<Cell>, a: int, b: int, k: int)
    requires
        c.len() == 9,
        0 <= k <= 8,
        forall|i: int| 0 <= i < 9 && c[i] != Cell::Empty ==> i == a || i == b,
    ensures
        winner_from(c, k) is None,
    decreases 8 - k,
{
    if k < 8 {
        assert(!line_taken(c, line(k)));
        lemma_two_marks_no_line(c, a, b, k + 1);
    }
}

/// In the transcript `seed,m1,m2,...`, a second human move onto the cell the
/// computer took in answer to the first is illegal, and the transcript is
/// not a win.
pub proof fn law_second_move_onto_computer_cell(b: Seq<u8>)
    requires
        fields(b).len() >= 3,
        seed_of(fields(b)[0]) is Some,
        move_of(fields(b)[1]) is Some,
        move_of(fields(b)[2]) == Some(
            computer_pick(
                blank().update(move_of(fields(b)[1])->0 as int, Cell::Z),
                seed_of(fields(b)[0])->0,
            ),
        ),
    ensures
        !player_wins(b),
{
    let f = fields(b);
    let s = seed_of(f[0])->0;
    let m = move_of(f[1])->0;
    let c = blank();
    let c1 = c.update(m as int, Cell::Z);
    lemma_two_marks_no_line(c1, m as int, m as int, 0);
    let other: int = if m == 0 { 1 } else { 0 };
    lemma_empties(c1, 9);
    assert(empty_cells(c1).contains(other as usize));
    let k = computer_pick(c1, s);
    assert(c1[k as int] == Cell::Empty);
    lemma_two_marks_no_line(c1.update(k as int, Cell::K), m as int, k as int, 0);
    assert(round(c, s, m).0 is None);
    let toks = f.drop_first();
    let rest = toks.subrange(2, toks.len() as int);
    assert(toks =~= seq![f[1], f[2]] + rest);
    law_move_onto_computer_cell(c, s, f[1], f[2], rest);
}

/// In the transcript `seed,m1,m2,...`, when the rounds before a human move
/// leave the game going and that move fills the board without completing a
/// line (five human and four computer moves), the game is a draw and the
/// transcript is not a win, whatever follows.
pub proof fn law_full_board_transcript_draws(
    b: Seq<u8>,
    pre: Seq<Seq<u8>>,
    t: Seq<u8>,
    post: Seq<Seq<u8>>,
)
    requires
        seed_of(fields(b)[0]) is Some,
        fields(b).drop_first() == pre + seq![t] + post,
        rounds_continue(blank(), seed_of(fields(b)[0])->0, pre),
        move_of(t) is Some,
        after_rounds(blank(), seed_of(fields(b)[0])->0, pre).0[move_of(t)->0 as int]
            == Cell::Empty,
        winner(
            after_rounds(blank(), seed_of(fields(b)[0])->0, pre).0.update(
                move_of(t)->0 as int,
                Cell::Z,
            ),
        ) is None,
        forall|i: int|
            0 <= i < 9 ==> after_rounds(blank(), seed_of(fields(b)[0])->0, pre).0.update(
                move_of(t)->0 as int,
                Cell::Z,
            )[i] != Cell::Empty,
    ensures
        !player_wins(b),
{
    let s = seed_of(fields(b)[0])->0;
    let rest = seq![t] + post;
    assert(pre + seq![t] + post =~= pre + rest);
    lemma_replay_after_rounds(blank(), s, pre, rest);
    let (c, s2) = after_rounds(blank(), s, pre);
    law_filling_move_draws(c, s2, t, post);
}

/// The number a decimal text spells is read back as that number.
proof fn lemma_decimal_read_back(n: nat)
    ensures
        number_of(ascii_bytes(decimal(n))) == Some(n),
{
    lemma_decimal(n);
    let d = ascii_bytes(decimal(n));
    assert(d[0] != 43);
}

/// A game written out as a transcript is read back by the verifier as the
/// same seed followed by the same moves, in order.
pub proof fn law_transcript_read_back(seed: u64, ms: Seq<usize>)
    ensures
        fields(encode_utf8(transcript_text(seed, ms))).len() == ms.len() + 1,
        seed_of(fields(encode_utf8(transcript_text(seed, ms)))[0]) == Some(seed),
        forall|i: int|
            0 <= i < ms.len() ==> number_of(
                #[trigger] fields(encode_utf8(transcript_text(seed, ms)))[i + 1],
            ) == Some(ms[i] as nat),
        forall|i: int|
            0 <= i < ms.len() && ms[i] < 9 ==> move_of(
                #[trigger] fields(encode_utf8(transcript_text(seed, ms)))[i + 1],
            ) == Some(ms[i]),
{
    let t = transcript_text(seed, ms);
    lemma_transcript_fields(seed, ms);
    assert(is_ascii_chars(t));
    is_ascii_chars_encode_utf8(t);
    assert(encode_utf8(t) =~= ascii_bytes(t));
    let f = fields(encode_utf8(t));
    lemma_decimal_read_back(seed as nat);
    assert forall|i: int| 0 <= i < ms.len() implies number_of(#[trigger] f[i + 1]) == Some(
        ms[i] as nat,
    ) by {
        lemma_decimal_read_back(ms[i] as nat);
    }
}

} // verus!
