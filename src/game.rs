use vstd::prelude::*;
use vstd::string::StringSliceAdditionalSpecFns;
use crate::board::{Board, Cell, winner};
use crate::decode::{move_of, number_in};
use crate::transcript::{digit_char, push_char};

verus! {

/// What became of one move of the interactive game.
#[derive(Clone, Copy, PartialEq, Eq, Structural, Debug)]
pub enum Turn {
    /// The cell does not exist or is taken; the board is unchanged.
    Rejected,
    /// The move completed a line of this mark.
    Won(Cell),
    /// The move filled the board without completing a line.
    Drawn,
    /// The game goes on with the other player.
    Next,
}

/// No cell of the board is empty.
pub open spec fn filled(c: Seq<Cell>) -> bool {
    forall|i: int| 0 <= i < 9 ==> c[i] != Cell::Empty
}

/// How the game stands on a board just after a move was placed.
pub open spec fn standing(c: Seq<Cell>) -> Turn {
    match winner(c) {
        Some(w) => Turn::Won(w),
        None => if filled(c) {
            Turn::Drawn
        } else {
            Turn::Next
        },
    }
}

/// Places `mark` at `position` and tells how the game stands after it.
pub fn apply_turn(board: &mut Board, position: usize, mark: Cell) -> (r: Turn)
    ensures
        !(position < 9 && old(board).cells@[position as int] == Cell::Empty) ==> (r
            == Turn::Rejected && final(board).cells@ == old(board).cells@),
        (position < 9 && old(board).cells@[position as int] == Cell::Empty) ==> (final(board).cells@
            == old(board).cells@.update(position as int, mark) && r == standing(final(board).cells@)),
{
    if !board.make_move(position, mark) {
        return Turn::Rejected;
    }
    if let Some(w) = board.check_winner() {
        return Turn::Won(w);
    }
    if board.is_full() {
        Turn::Drawn
    } else {
        Turn::Next
    }
}

/// Reads a human's move from an entered (already trimmed) line: a cell
/// number that names an empty cell.
pub fn human_move(token: &str, board: &Board) -> (r: Option<usize>)
    ensures
        r == (match move_of(token.spec_bytes()) {
            Some(m) => if board.cells@[m as int] == Cell::Empty {
                Some(m)
            } else {
                None
            },
            None => None,
        }),
{
    let b = token.as_bytes();
    assert(b@.subrange(0, b@.len() as int) =~= b@);
    match number_in(b, 0, b.len(), 8) {
        Some(v) => {
            let m = v as usize;
            if board.cells[m] == Cell::Empty {
                Some(m)
            } else {
                None
            }
        },
        None => None,
    }
}

/// How a cell is drawn: its number while empty, else the mark.
pub open spec fn cell_char(c: Seq<Cell>, i: int) -> char {
    match c[i] {
        Cell::Empty => digit_char(i as nat),
        Cell::Z => 'Z',
        Cell::K => 'K',
    }
}

/// One row of the drawn board, cells separated by `|`.
pub open spec fn row_text(c: Seq<Cell>, r: int) -> Seq<char> {
    seq![cell_char(c, 3 * r), '|', cell_char(c, 3 * r + 1), '|', cell_char(c, 3 * r + 2), '\n']
}

/// The line between two rows.
pub open spec fn rule_text() -> Seq<char> {
    seq!['-', '+', '-', '+', '-', '\n']
}

/// The drawn board: three rows with rules between them, then a blank line.
pub open spec fn board_text(c: Seq<Cell>) -> Seq<char> {
    row_text(c, 0) + rule_text() + row_text(c, 1) + rule_text() + row_text(c, 2) + seq!['\n']
}

impl Board {
    fn push_cell(&self, s: &mut String, i: usize)
        requires
            i < 9,
        ensures
            final(s)@ == old(s)@.push(cell_char(self.cells@, i as int)),
    {
        let ch = match self.cells[i] {
            Cell::Empty => (48 + i as u8) as char,
            Cell::Z => 'Z',
            Cell::K => 'K',
        };
        push_char(s, ch);
    }

    fn push_row(&self, s: &mut String, r: usize)
        requires
            r < 3,
        ensures
            final(s)@ == old(s)@ + row_text(self.cells@, r as int),
    {
        self.push_cell(s, 3 * r);
        push_char(s, '|');
        self.push_cell(s, 3 * r + 1);
        push_char(s, '|');
        self.push_cell(s, 3 * r + 2);
        push_char(s, '\n');
        assert(final(s)@ =~= old(s)@ + row_text(self.cells@, r as int));
    }

    fn push_rule(s: &mut String)
        ensures
            final(s)@ == old(s)@ + rule_text(),
    {
        push_char(s, '-');
        push_char(s, '+');
        push_char(s, '-');
        push_char(s, '+');
        push_char(s, '-');
        push_char(s, '\n');
        assert(final(s)@ =~= old(s)@ + rule_text());
    }

    /// The board as text, for display.
    pub fn render(&self) -> (r: String)
        ensures
            r@ == board_text(self.cells@),
    {
        let mut s = String::new();
        self.push_row(&mut s, 0);
        Board::push_rule(&mut s);
        self.push_row(&mut s, 1);
        Board::push_rule(&mut s);
        self.push_row(&mut s, 2);
        push_char(&mut s, '\n');
        assert(s@ =~= board_text(self.cells@));
        s
    }
}

} // verus!
