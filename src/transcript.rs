use vstd::prelude::*;
use crate::decode::{all_digits, digits_value, fields, lemma_fields_append, lemma_fields_split};

verus! {

/// A finished interactive game: the seed it was played with and the human's
/// moves in order.
pub struct GameRound {
    pub seed: u64,
    pub player_moves: Vec<usize>,
}

/// The character of a decimal digit.
pub open spec fn digit_char(d: nat) -> char {
    ((48 + d) as u8) as char
}

/// The decimal text of a number, without leading zeros.
pub open spec fn decimal(n: nat) -> Seq<char>
    decreases n,
{
    if n < 10 {
        seq![digit_char(n)]
    } else {
        decimal(n / 10).push(digit_char(n % 10))
    }
}

/// Each move as `,` followed by its decimal text.
pub open spec fn moves_text(ms: Seq<usize>) -> Seq<char>
    decreases ms.len(),
{
    if ms.len() == 0 {
        Seq::empty()
    } else {
        moves_text(ms.drop_last()) + seq![','] + decimal(ms.last() as nat)
    }
}

/// The transcript text `seed,move,move,...`.
pub open spec fn transcript_text(seed: u64, ms: Seq<usize>) -> Seq<char> {
    decimal(seed as nat) + moves_text(ms)
}

/// The bytes of a text whose characters are all ASCII.
pub open spec fn ascii_bytes(cs: Seq<char>) -> Seq<u8> {
    Seq::new(cs.len(), |i: int| cs[i] as u8)
}

/// The decimal text is digits only, and spells `n` back.
pub proof fn lemma_decimal(n: nat)
    ensures
        decimal(n).len() > 0,
        forall|i: int| 0 <= i < decimal(n).len() ==> '0' <= #[trigger] decimal(n)[i] <= '9',
        all_digits(ascii_bytes(decimal(n))),
        digits_value(ascii_bytes(decimal(n))) == n,
    decreases n,
{
    if n >= 10 {
        lemma_decimal(n / 10);
        let p = ascii_bytes(decimal(n));
        assert(p.drop_last() =~= ascii_bytes(decimal(n / 10)));
        assert(p.last() == (48 + n % 10) as u8);
        vstd::arithmetic::div_mod::lemma_fundamental_div_mod(n as int, 10);
        assert(digits_value(p) == (n / 10) * 10 + n % 10);
    } else {
        let p = ascii_bytes(decimal(n));
        assert(p.drop_last() =~= Seq::<u8>::empty());
        assert(p.last() == (48 + n) as u8);
        assert(digits_value(p.drop_last()) == 0);
    }
}

/// The transcript text holds only digits and commas, and its comma-separated
/// fields are the decimal texts of the seed and of each move.
pub proof fn lemma_transcript_fields(seed: u64, ms: Seq<usize>)
    ensures
        forall|i: int|
            0 <= i < transcript_text(seed, ms).len() ==> ('0' <= #[trigger] transcript_text(
                seed,
                ms,
            )[i] <= '9' || transcript_text(seed, ms)[i] == ','),
        fields(ascii_bytes(transcript_text(seed, ms))) == seq![ascii_bytes(decimal(seed as nat))]
            + Seq::new(ms.len(), |i: int| ascii_bytes(decimal(ms[i] as nat))),
    decreases ms.len(),
{
    let t = transcript_text(seed, ms);
    if ms.len() == 0 {
        lemma_decimal(seed as nat);
        let d = ascii_bytes(decimal(seed as nat));
        assert(t =~= decimal(seed as nat));
        lemma_fields_split(d, 0, d.len() as int);
        assert(d.subrange(0, d.len() as int) =~= d);
        assert(seq![d] + Seq::new(0, |i: int| ascii_bytes(decimal(ms[i] as nat))) =~= seq![d]);
    } else {
        let front = ms.drop_last();
        lemma_transcript_fields(seed, front);
        lemma_decimal(ms.last() as nat);
        let x = transcript_text(seed, front);
        let dl = decimal(ms.last() as nat);
        assert(t =~= x + seq![','] + dl);
        let d = ascii_bytes(dl);
        assert(ascii_bytes(t) =~= ascii_bytes(x) + seq![44u8] + d);
        lemma_fields_append(ascii_bytes(x), d);
        assert(seq![ascii_bytes(decimal(seed as nat))] + Seq::new(
            front.len(),
            |i: int| ascii_bytes(decimal(front[i] as nat)),
        ).push(d) =~= seq![ascii_bytes(decimal(seed as nat))] + Seq::new(
            ms.len(),
            |i: int| ascii_bytes(decimal(ms[i] as nat)),
        ));
        assert forall|i: int| 0 <= i < t.len() implies ('0' <= #[trigger] t[i] <= '9' || t[i]
            == ',') by {
            if i < x.len() {
                assert(t[i] == x[i]);
            } else if i > x.len() {
                assert(t[i] == dl[i - x.len() - 1]);
            }
        }
    }
}

/// Relies on `String::push`: appends one character.
#[verifier::external_body]
pub(crate) fn push_char(s: &mut String, c: char)
    ensures
        final(s)@ == old(s)@.push(c),
{
    s.push(c);
}

fn push_decimal(s: &mut String, n: u64)
    ensures
        final(s)@ == old(s)@ + decimal(n as nat),
    decreases n,
{
    if n >= 10 {
        push_decimal(s, n / 10);
    }
    let d: u8 = (n % 10) as u8;
    push_char(s, (48 + d) as char);
    assert(final(s)@ =~= old(s)@ + decimal(n as nat));
}

/// Writes a game's seed and moves as the transcript text that the verifier
/// reads.
pub fn format_seed_and_moves(seed: u64, moves: &[usize]) -> (r: String)
    ensures
        r@ == transcript_text(seed, moves@),
{
    let mut r = String::new();
    push_decimal(&mut r, seed);
    let mut i: usize = 0;
    while i < moves.len()
        invariant
            i <= moves@.len(),
            r@ == decimal(seed as nat) + moves_text(moves@.subrange(0, i as int)),
        decreases moves@.len() - i,
    {
        push_char(&mut r, ',');
        push_decimal(&mut r, moves[i] as u64);
        proof {
            let p = moves@.subrange(0, i + 1);
            assert(p.drop_last() =~= moves@.subrange(0, i as int));
        }
        i = i + 1;
        assert(r@ =~= decimal(seed as nat) + moves_text(moves@.subrange(0, i as int)));
    }
    assert(moves@.subrange(0, i as int) =~= moves@);
    r
}

} // verus!
