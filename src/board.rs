use vstd::prelude::*;
use crate::rng::{SimpleRNG, lcg_step};

verus! {

/// What a cell of the board holds.
#[derive(Clone, Copy, PartialEq, Eq, Structural, Debug)]
pub enum Cell {
    Empty,
    /// The human player's mark.
    Z,
    /// The computer's mark.
    K,
}

/// A participant of the game and the mark it places.
pub struct Player {
    pub symbol: Cell,
}

/// The 3x3 grid, cells numbered 0..8 row by row.
pub struct Board {
    pub cells: [Cell; 9],
}

/// The `k`-th winning line: rows top to bottom, columns left to right,
/// then the two diagonals.
pub open spec fn line(k: int) -> (int, int, int) {
    if k == 0 {
        (0, 1, 2)
    } else if k == 1 {
        (3, 4, 5)
    } else if k == 2 {
        (6, 7, 8)
    } else if k == 3 {
        (0, 3, 6)
    } else if k == 4 {
        (1, 4, 7)
    } else if k == 5 {
        (2, 5, 8)
    } else if k == 6 {
        (0, 4, 8)
    } else {
        (2, 4, 6)
    }
}

/// One mark occupies all three cells of the line.
pub open spec fn line_taken(c: Seq<Cell>, l: (int, int, int)) -> bool {
    c[l.0] != Cell::Empty && c[l.0] == c[l.1] && c[l.1] == c[l.2]
}

/// The mark of the first taken line among lines `k..8`, if any.
pub open spec fn winner_from(c: Seq<Cell>, k: int) -> Option<Cell>
    decreases 8 - k,
{
    if k >= 8 || k < 0 {
        None
    } else if line_taken(c, line(k)) {
        Some(c[line(k).0])
    } else {
        winner_from(c, k + 1)
    }
}

/// The mark of the first taken line in enumeration order, if any.
pub open spec fn winner(c: Seq<Cell>) -> Option<Cell> {
    winner_from(c, 0)
}

/// Indices below `n` of the empty cells, ascending.
pub open spec fn empties_upto(c: Seq<Cell>, n: int) -> Seq<usize>
    decreases n,
{
    if n <= 0 {
        Seq::empty()
    } else if c[n - 1] == Cell::Empty {
        empties_upto(c, n - 1).push((n - 1) as usize)
    } else {
        empties_upto(c, n - 1)
    }
}

/// Indices of all empty cells of a board, ascending.
pub open spec fn empty_cells(c: Seq<Cell>) -> Seq<usize> {
    empties_upto(c, 9)
}

/// The board that starts a game.
pub open spec fn blank() -> Seq<Cell> {
    Seq::new(9, |i: int| Cell::Empty)
}

/// Every element of `empties_upto(c, n)` is an empty cell below `n`, they
/// ascend, every empty cell below `n` is among them, and there are at most `n`.
pub proof fn lemma_empties(c: Seq<Cell>, n: int)
    requires
        0 <= n <= 9,
    ensures
        empties_upto(c, n).len() <= n,
        forall|j: int|
            0 <= j < empties_upto(c, n).len() ==> (empties_upto(c, n)[j] as int) < n
                && c[empties_upto(c, n)[j] as int] == Cell::Empty,
        forall|j: int, k: int|
            0 <= j < k < empties_upto(c, n).len() ==> empties_upto(c, n)[j]
                < empties_upto(c, n)[k],
        forall|i: int|
            0 <= i < n && c[i] == Cell::Empty ==> empties_upto(c, n).contains(i as usize),
    decreases n,
{
    if n > 0 {
        lemma_empties(c, n - 1);
        let e = empties_upto(c, n - 1);
        let f = empties_upto(c, n);
        let last = (n - 1) as usize;
        if c[n - 1] == Cell::Empty {
            assert(f == e.push(last));
            assert(f[e.len() as int] == last);
            assert forall|j: int, k: int| 0 <= j < k < f.len() implies f[j] < f[k] by {
                if k < e.len() {
                    assert(f[j] == e[j] && f[k] == e[k]);
                } else {
                    assert(f[j] == e[j]);
                }
            }
        } else {
            assert(f == e);
        }
        assert forall|i: int| 0 <= i < n && c[i] == Cell::Empty implies f.contains(
            i as usize,
        ) by {
            if i < n - 1 {
                let j = choose|j: int| 0 <= j < e.len() && e[j] == i as usize;
                assert(f[j] == i as usize);
            } else {
                assert(f[e.len() as int] == i as usize);
            }
        }
    }
}

/// A board has no empty cell exactly when its list of empty cells is empty.
pub proof fn lemma_full_iff_no_empties(c: Seq<Cell>)
    ensures
        (empty_cells(c).len() == 0) <==> (forall|i: int| 0 <= i < 9 ==> c[i] != Cell::Empty),
{
    lemma_empties(c, 9);
    if empty_cells(c).len() != 0 {
        assert(c[empty_cells(c)[0] as int] == Cell::Empty);
    }
}

fn line_at(k: usize) -> (r: (usize, usize, usize))
    requires
        k < 8,
    ensures
        r.0 as int == line(k as int).0,
        r.1 as int == line(k as int).1,
        r.2 as int == line(k as int).2,
        r.0 < 9 && r.1 < 9 && r.2 < 9,
{
    if k == 0 {
        (0, 1, 2)
    } else if k == 1 {
        (3, 4, 5)
    } else if k == 2 {
        (6, 7, 8)
    } else if k == 3 {
        (0, 3, 6)
    } else if k == 4 {
        (1, 4, 7)
    } else if k == 5 {
        (2, 5, 8)
    } else if k == 6 {
        (0, 4, 8)
    } else {
        (2, 4, 6)
    }
}

impl Board {
    /// A board with all nine cells empty.
    pub fn new() -> (r: Board)
        ensures
            r.cells@ == blank(),
    {
        let r = Board { cells: [Cell::Empty; 9] };
        assert(r.cells@ =~= blank());
        r
    }

    /// Places `player` at `position` when that cell exists and is empty;
    /// otherwise leaves the board as it was.
    pub fn make_move(&mut self, position: usize, player: Cell) -> (r: bool)
        ensures
            r == (position < 9 && old(self).cells@[position as int] == Cell::Empty),
            r ==> final(self).cells@ == old(self).cells@.update(position as int, player),
            !r ==> final(self).cells@ == old(self).cells@,
    {
        if position < 9 && self.cells[position] == Cell::Empty {
            self.cells[position] = player;
            true
        } else {
            false
        }
    }

    /// Indices of the empty cells, ascending.
    pub fn get_empty_cells(&self) -> (r: Vec<usize>)
        ensures
            r@ == empty_cells(self.cells@),
    {
        let mut r: Vec<usize> = Vec::new();
        let mut i: usize = 0;
        while i < 9
            invariant
                i <= 9,
                r@ == empties_upto(self.cells@, i as int),
            decreases 9 - i,
        {
            if self.cells[i] == Cell::Empty {
                r.push(i);
            }
            i = i + 1;
        }
        r
    }

    /// The mark that fills the first complete line, if any.
    pub fn check_winner(&self) -> (r: Option<Cell>)
        ensures
            r == winner(self.cells@),
    {
        let mut k: usize = 0;
        while k < 8
            invariant
                k <= 8,
                winner_from(self.cells@, k as int) == winner(self.cells@),
            decreases 8 - k,
        {
            let (a, b, c) = line_at(k);
            if self.cells[a] != Cell::Empty && self.cells[a] == self.cells[b] && self.cells[b]
                == self.cells[c] {
                return Some(self.cells[a]);
            }
            k = k + 1;
        }
        None
    }

    /// Whether no cell is empty.
    pub fn is_full(&self) -> (r: bool)
        ensures
            r == (forall|i: int| 0 <= i < 9 ==> self.cells@[i] != Cell::Empty),
    {
        let mut i: usize = 0;
        while i < 9
            invariant
                i <= 9,
                forall|j: int| 0 <= j < i ==> self.cells@[j] != Cell::Empty,
            decreases 9 - i,
        {
            if self.cells[i] == Cell::Empty {
                return false;
            }
            i = i + 1;
        }
        true
    }
}

/// The cell the computer picks: a generator draw over the indices of the
/// empty cells.
pub open spec fn computer_pick(c: Seq<Cell>, state: u64) -> usize {
    empty_cells(c)[(lcg_step(state) as nat % empty_cells(c).len()) as int]
}

/// Draws the computer's move among the empty cells of `board`.
pub fn get_computer_move(board: &Board, rng: &mut SimpleRNG) -> (r: usize)
    requires
        empty_cells(board.cells@).len() > 0,
    ensures
        final(rng).state == lcg_step(old(rng).state),
        r == computer_pick(board.cells@, old(rng).state),
        r < 9,
        board.cells@[r as int] == Cell::Empty,
{
    proof {
        lemma_empties(board.cells@, 9);
    }
    let empty = board.get_empty_cells();
    let i = rng.rand_range(0, empty.len() - 1);
    empty[i]
}

} // verus!
