//! The Connect-Four board: a 6-row, 7-column grid of cells, together with
//! the droppable-columns multiset that supports uniformly-random legal moves.
//!
//! Row 0 is the top of the board, row 5 the bottom; column 0 is leftmost.
//! The grid is stored row-major, so the cell at row `r`, column `c` lives at
//! index `r * 7 + c`.

use vstd::prelude::*;

verus! {

/// A player's piece colour. `Empty` marks an unoccupied cell, and stands for
/// "no winner" when returned by [`Board::check_winner`].
#[derive(Clone, Copy, PartialEq, Eq, Structural, Debug)]
pub enum Token {
    Red,
    Yellow,
    Empty,
}

/// The cell of grid `g` at row `r`, column `c` (row-major layout).
pub open spec fn cell(g: Seq<Token>, r: int, c: int) -> Token {
    g[r * 7 + c]
}

/// How many of the cells of column `c` in rows `0 .. r` are empty.
pub open spec fn empties_in_col_upto(g: Seq<Token>, c: int, r: int) -> nat
    decreases r,
{
    if r <= 0 {
        0
    } else {
        empties_in_col_upto(g, c, r - 1) + (if cell(g, r - 1, c) == Token::Empty {
            1nat
        } else {
            0nat
        })
    }
}

/// How many cells of column `c` are empty, over all six rows.
pub open spec fn empties_in_col(g: Seq<Token>, c: int) -> nat {
    empties_in_col_upto(g, c, 6)
}

/// Gravity: a cell can be non-empty only if every cell below it in the same
/// column is non-empty, so all empty cells lie strictly above all tokens.
pub open spec fn gravity_ok(g: Seq<Token>) -> bool {
    forall|r: int, c: int|
        0 <= r < 5 && 0 <= c < 7 && #[trigger] cell(g, r, c) != Token::Empty ==> cell(
            g,
            r + 1,
            c,
        ) != Token::Empty
}

/// The lowest row index `<= r` whose cell in column `c` is empty, or `-1`
/// when rows `0 ..= r` of the column hold no empty cell. Row indices grow
/// downwards, so this is where a dropped token comes to rest.
pub open spec fn lowest_empty_from(g: Seq<Token>, c: int, r: int) -> int
    decreases r + 1,
{
    if r < 0 {
        -1
    } else if cell(g, r, c) == Token::Empty {
        r
    } else {
        lowest_empty_from(g, c, r - 1)
    }
}

/// The row where a token dropped into column `c` comes to rest: the lowest
/// empty row of the column, or `-1` when the column is full.
pub open spec fn lowest_empty_row(g: Seq<Token>, c: int) -> int {
    lowest_empty_from(g, c, 5)
}

/// How many of the first `i` cells of the grid hold a token.
pub open spec fn count_tokens_upto(g: Seq<Token>, i: int) -> nat
    decreases i,
{
    if i <= 0 {
        0
    } else {
        count_tokens_upto(g, i - 1) + (if g[i - 1] != Token::Empty {
            1nat
        } else {
            0nat
        })
    }
}

/// How many cells of the whole grid hold a token.
pub open spec fn count_tokens(g: Seq<Token>) -> nat {
    count_tokens_upto(g, g.len() as int)
}

/// Every cell of the grid holds a token.
pub open spec fn full_spec(g: Seq<Token>) -> bool {
    forall|i: int| 0 <= i < g.len() ==> g[i] != Token::Empty
}

/// A horizontal four-in-a-row of `t` starting at row `r`, column `c`.
pub open spec fn horiz_win_at(g: Seq<Token>, t: Token, r: int, c: int) -> bool {
    &&& cell(g, r, c) == t
    &&& cell(g, r, c + 1) == t
    &&& cell(g, r, c + 2) == t
    &&& cell(g, r, c + 3) == t
}

/// A vertical four-in-a-row of `t` starting at row `r`, column `c`.
pub open spec fn vert_win_at(g: Seq<Token>, t: Token, r: int, c: int) -> bool {
    &&& cell(g, r, c) == t
    &&& cell(g, r + 1, c) == t
    &&& cell(g, r + 2, c) == t
    &&& cell(g, r + 3, c) == t
}

/// A down-right diagonal four-in-a-row of `t` starting at row `r`, column `c`.
pub open spec fn diag_dr_win_at(g: Seq<Token>, t: Token, r: int, c: int) -> bool {
    &&& cell(g, r, c) == t
    &&& cell(g, r + 1, c + 1) == t
    &&& cell(g, r + 2, c + 2) == t
    &&& cell(g, r + 3, c + 3) == t
}

/// A down-left diagonal four-in-a-row of `t` starting at row `r`, column `c`.
pub open spec fn diag_dl_win_at(g: Seq<Token>, t: Token, r: int, c: int) -> bool {
    &&& cell(g, r, c) == t
    &&& cell(g, r + 1, c - 1) == t
    &&& cell(g, r + 2, c - 2) == t
    &&& cell(g, r + 3, c - 3) == t
}

/// `t` has a horizontal four-in-a-row somewhere: the window must start in
/// columns 0 ..= 3 to stay inside the grid.
pub open spec fn has_horiz_win(g: Seq<Token>, t: Token) -> bool {
    exists|r: int, c: int| 0 <= r < 6 && 0 <= c < 4 && #[trigger] horiz_win_at(g, t, r, c)
}

/// `t` has a vertical four-in-a-row somewhere: the window must start in
/// rows 0 ..= 2.
pub open spec fn has_vert_win(g: Seq<Token>, t: Token) -> bool {
    exists|r: int, c: int| 0 <= r < 3 && 0 <= c < 7 && #[trigger] vert_win_at(g, t, r, c)
}

/// `t` has a down-right diagonal four-in-a-row: starts in rows 0 ..= 2 and
/// columns 0 ..= 3.
pub open spec fn has_diag_dr_win(g: Seq<Token>, t: Token) -> bool {
    exists|r: int, c: int| 0 <= r < 3 && 0 <= c < 4 && #[trigger] diag_dr_win_at(g, t, r, c)
}

/// `t` has a down-left diagonal four-in-a-row: starts in rows 0 ..= 2 and
/// columns 3 ..= 6.
pub open spec fn has_diag_dl_win(g: Seq<Token>, t: Token) -> bool {
    exists|r: int, c: int| 0 <= r < 3 && 3 <= c < 7 && #[trigger] diag_dl_win_at(g, t, r, c)
}

/// `t` has four-in-a-row along one of the four axes.
pub open spec fn is_winner(g: Seq<Token>, t: Token) -> bool {
    ||| has_horiz_win(g, t)
    ||| has_vert_win(g, t)
    ||| has_diag_dr_win(g, t)
    ||| has_diag_dl_win(g, t)
}

/// The outcome read off a grid: `Red` if red has four-in-a-row (checked
/// first), then `Yellow`, and `Empty` when neither player has one.
pub open spec fn winner_spec(g: Seq<Token>) -> Token {
    if is_winner(g, Token::Red) {
        Token::Red
    } else if is_winner(g, Token::Yellow) {
        Token::Yellow
    } else {
        Token::Empty
    }
}

/// A move aimed at column `c` lands exactly when `c` is a real column whose
/// top cell is still empty.
pub open spec fn place_ok(g: Seq<Token>, c: int) -> bool {
    0 <= c < 7 && cell(g, 0, c) == Token::Empty
}

/// The grid after one attempted move: a legal move writes `t` into the
/// lowest empty cell of column `c`; a failed one changes nothing.
pub open spec fn place_grid(g: Seq<Token>, t: Token, c: int) -> Seq<Token> {
    if place_ok(g, c) {
        g.update(lowest_empty_row(g, c) * 7 + c, t)
    } else {
        g
    }
}

/// The grid after a whole sequence of attempted moves, applied in order.
pub open spec fn apply_moves(g: Seq<Token>, moves: Seq<(Token, int)>) -> Seq<Token>
    decreases moves.len(),
{
    if moves.len() == 0 {
        g
    } else {
        apply_moves(place_grid(g, moves[0].0, moves[0].1), moves.skip(1))
    }
}

/// How many of a sequence of attempted moves succeed, each judged against
/// the grid left by the moves before it.
pub open spec fn count_successes(g: Seq<Token>, moves: Seq<(Token, int)>) -> nat
    decreases moves.len(),
{
    if moves.len() == 0 {
        0
    } else {
        (if place_ok(g, moves[0].1) {
            1nat
        } else {
            0nat
        }) + count_successes(place_grid(g, moves[0].0, moves[0].1), moves.skip(1))
    }
}

/// The board: the grid of cells plus the droppable-columns multiset, which
/// holds one entry per column per remaining empty slot in that column.
pub struct Board {
    grid: Vec<Token>,
    slots: Vec<u8>,
}

impl Board {
    /// The grid as a sequence of 42 cells, row-major.
    pub closed spec fn grid_seq(&self) -> Seq<Token> {
        self.grid@
    }

    /// The droppable-columns entries, one per remaining empty slot.
    pub closed spec fn slots_seq(&self) -> Seq<u8> {
        self.slots@
    }

    /// Well-formedness: the grid has exactly 42 cells, every droppable entry
    /// names a real column, and for each column the multiset holds exactly
    /// one entry per empty cell of that column.
    pub open spec fn wf(&self) -> bool {
        &&& self.grid_seq().len() == 42
        &&& forall|i: int| 0 <= i < self.slots_seq().len() ==> self.slots_seq()[i] < 7
        &&& forall|c: u8|
            c < 7 ==> #[trigger] self.slots_seq().to_multiset().count(c) == empties_in_col(
                self.grid_seq(),
                c as int,
            )
    }

    /// An empty board: 42 empty cells, and six droppable entries for each of
    /// the seven columns.
    pub fn new() -> (b: Board)
        ensures
            b.wf(),
            forall|i: int| 0 <= i < 42 ==> b.grid_seq()[i] == Token::Empty,
            gravity_ok(b.grid_seq()),
            b.slots_seq().len() == 42,
    {
        let mut grid: Vec<Token> = Vec::new();
        for i in 0..42usize
            invariant
                grid@.len() == i,
                forall|j: int| 0 <= j < i ==> grid@[j] == Token::Empty,
        {
            grid.push(Token::Empty);
        }
        let slots = build_slots(&grid);
        proof {
            assert forall|c: u8| c < 7 implies slots@.to_multiset().count(c) == empties_in_col(
                grid@,
                c as int,
            ) by {
                lemma_empties_all_empty(grid@, c as int);
            }
            lemma_empties_all_empty(grid@, 0);
            lemma_empties_all_empty(grid@, 1);
            lemma_empties_all_empty(grid@, 2);
            lemma_empties_all_empty(grid@, 3);
            lemma_empties_all_empty(grid@, 4);
            lemma_empties_all_empty(grid@, 5);
            lemma_empties_all_empty(grid@, 6);
            assert(sum_empties_upto(grid@, 0) == 0);
            assert(sum_empties_upto(grid@, 1) == 6);
            assert(sum_empties_upto(grid@, 2) == 12);
            assert(sum_empties_upto(grid@, 3) == 18);
            assert(sum_empties_upto(grid@, 4) == 24);
            assert(sum_empties_upto(grid@, 5) == 30);
            assert(sum_empties_upto(grid@, 6) == 36);
            assert(sum_empties_upto(grid@, 7) == 42);
        }
        Board { grid, slots }
    }

    /// The cell at row `row`, column `col`: read-only access for rendering.
    pub fn cell_at(&self, row: usize, col: usize) -> (t: Token)
        requires
            self.wf(),
            row < 6,
            col < 7,
        ensures
            t == cell(self.grid_seq(), row as int, col as int),
    {
        self.grid[row * 7 + col]
    }

    /// True iff no empty cell remains anywhere on the board.
    pub fn is_full(&self) -> (r: bool)
        requires
            self.wf(),
        ensures
            r == full_spec(self.grid_seq()),
    {
        for i in 0..42usize
            invariant
                self.wf(),
                forall|j: int| 0 <= j < i ==> self.grid_seq()[j] != Token::Empty,
        {
            if self.grid[i] == Token::Empty {
                return false;
            }
        }
        true
    }

    /// True iff `(x, y)` lies on the board and holds `token`; positions off
    /// the board never match.
    pub fn check_cell(&self, x: usize, y: usize, token: &Token) -> (r: bool)
        requires
            self.wf(),
        ensures
            r == (x < 6 && y < 7 && cell(self.grid_seq(), x as int, y as int) == *token),
    {
        if x < 6 && y < 7 {
            self.grid[x * 7 + y] == *token
        } else {
            false
        }
    }

    /// True iff `token` has a horizontal four-in-a-row: for each row, the
    /// windows starting in columns 0 ..= 3 are tested.
    pub fn check_row(&self, token: &Token) -> (r: bool)
        requires
            self.wf(),
        ensures
            r == has_horiz_win(self.grid_seq(), *token),
    {
        for x in 0..6usize
            invariant
                self.wf(),
                forall|rr: int, cc: int|
                    0 <= rr < x && 0 <= cc < 4 ==> !horiz_win_at(self.grid_seq(), *token, rr, cc),
        {
            for y in 0..4usize
                invariant
                    self.wf(),
                    x < 6,
                    forall|rr: int, cc: int|
                        0 <= rr < x && 0 <= cc < 4 ==> !horiz_win_at(
                            self.grid_seq(),
                            *token,
                            rr,
                            cc,
                        ),
                    forall|cc: int|
                        0 <= cc < y ==> !horiz_win_at(self.grid_seq(), *token, x as int, cc),
            {
                if self.check_cell(x, y, token) && self.check_cell(x, y + 1, token)
                    && self.check_cell(x, y + 2, token) && self.check_cell(x, y + 3, token) {
                    assert(horiz_win_at(self.grid_seq(), *token, x as int, y as int));
                    return true;
                }
            }
        }
        false
    }

    /// True iff `token` has a vertical four-in-a-row: for each column, the
    /// windows starting in rows 0 ..= 2 are tested.
    pub fn check_column(&self, token: &Token) -> (r: bool)
        requires
            self.wf(),
        ensures
            r == has_vert_win(self.grid_seq(), *token),
    {
        for y in 0..7usize
            invariant
                self.wf(),
                forall|rr: int, cc: int|
                    0 <= rr < 3 && 0 <= cc < y ==> !vert_win_at(self.grid_seq(), *token, rr, cc),
        {
            for x in 0..3usize
                invariant
                    self.wf(),
                    y < 7,
                    forall|rr: int, cc: int|
                        0 <= rr < 3 && 0 <= cc < y ==> !vert_win_at(
                            self.grid_seq(),
                            *token,
                            rr,
                            cc,
                        ),
                    forall|rr: int|
                        0 <= rr < x ==> !vert_win_at(self.grid_seq(), *token, rr, y as int),
            {
                if self.check_cell(x, y, token) && self.check_cell(x + 1, y, token)
                    && self.check_cell(x + 2, y, token) && self.check_cell(x + 3, y, token) {
                    assert(vert_win_at(self.grid_seq(), *token, x as int, y as int));
                    return true;
                }
            }
        }
        false
    }

    /// True iff `token` has a four-in-a-row on either diagonal axis.
    /// Down-right windows start at rows 0 ..= 2 and columns 0 ..= 3;
    /// down-left windows at rows 0 ..= 2 and columns 3 ..= 6.
    pub fn check_diagonal(&self, token: &Token) -> (r: bool)
        requires
            self.wf(),
        ensures
            r == (has_diag_dr_win(self.grid_seq(), *token) || has_diag_dl_win(
                self.grid_seq(),
                *token,
            )),
    {
        for x in 0..3usize
            invariant
                self.wf(),
                forall|rr: int, cc: int|
                    0 <= rr < x && 0 <= cc < 4 ==> !diag_dr_win_at(self.grid_seq(), *token, rr, cc),
        {
            for y in 0..4usize
                invariant
                    self.wf(),
                    x < 3,
                    forall|rr: int, cc: int|
                        0 <= rr < x && 0 <= cc < 4 ==> !diag_dr_win_at(
                            self.grid_seq(),
                            *token,
                            rr,
                            cc,
                        ),
                    forall|cc: int|
                        0 <= cc < y ==> !diag_dr_win_at(self.grid_seq(), *token, x as int, cc),
            {
                if self.check_cell(x, y, token) && self.check_cell(x + 1, y + 1, token)
                    && self.check_cell(x + 2, y + 2, token) && self.check_cell(x + 3, y + 3, token) {
                    assert(diag_dr_win_at(self.grid_seq(), *token, x as int, y as int));
                    return true;
                }
            }
        }
        for x in 0..3usize
            invariant
                self.wf(),
                forall|rr: int, cc: int|
                    0 <= rr < 3 && 0 <= cc < 4 ==> !diag_dr_win_at(self.grid_seq(), *token, rr, cc),
                forall|rr: int, cc: int|
                    0 <= rr < x && 3 <= cc < 7 ==> !diag_dl_win_at(self.grid_seq(), *token, rr, cc),
        {
            for y in 3..7usize
                invariant
                    self.wf(),
                    x < 3,
                    forall|rr: int, cc: int|
                        0 <= rr < 3 && 0 <= cc < 4 ==> !diag_dr_win_at(
                            self.grid_seq(),
                            *token,
                            rr,
                            cc,
                        ),
                    forall|rr: int, cc: int|
                        0 <= rr < x && 3 <= cc < 7 ==> !diag_dl_win_at(
                            self.grid_seq(),
                            *token,
                            rr,
                            cc,
                        ),
                    forall|cc: int|
                        3 <= cc < y ==> !diag_dl_win_at(self.grid_seq(), *token, x as int, cc),
            {
                if self.check_cell(x, y, token) && self.check_cell(x + 1, y - 1, token)
                    && self.check_cell(x + 2, y - 2, token) && self.check_cell(x + 3, y - 3, token) {
                    assert(diag_dl_win_at(self.grid_seq(), *token, x as int, y as int));
                    return true;
                }
            }
        }
        false
    }

    /// Drops `token` into column `col`: the token comes to rest in the
    /// lowest empty cell of the column. Returns `None` when `col` is not a
    /// real column index, `Some(false)` when the column is already full, and
    /// `Some(true)` on success; on any failure the board is unchanged. On
    /// success exactly one cell changes, the token count grows by one, one
    /// droppable entry for the column is removed, and gravity is preserved.
    #[verifier::rlimit(100)]
    pub fn player_stroke(&mut self, token: Token, col: i8) -> (r: Option<bool>)
        requires
            old(self).wf(),
            token != Token::Empty,
        ensures
            final(self).wf(),
            r == None::<bool> <==> !(0 <= col < 7),
            !(0 <= col < 7) ==> *final(self) == *old(self),
            (0 <= col < 7 && cell(old(self).grid_seq(), 0, col as int) != Token::Empty) ==> (r
                == Some(false) && *final(self) == *old(self)),
            r == Some(true) <==> place_ok(old(self).grid_seq(), col as int),
            final(self).grid_seq() == place_grid(old(self).grid_seq(), token, col as int),
            (0 <= col < 7 && cell(old(self).grid_seq(), 0, col as int) == Token::Empty) ==> ({
                let rest = lowest_empty_row(old(self).grid_seq(), col as int);
                &&& r == Some(true)
                &&& 0 <= rest < 6
                &&& final(self).grid_seq() == old(self).grid_seq().update(
                    rest * 7 + col as int,
                    token,
                )
                &&& final(self).slots_seq().len() == old(self).slots_seq().len() - 1
                &&& count_tokens(final(self).grid_seq()) == count_tokens(old(self).grid_seq()) + 1
                &&& (gravity_ok(old(self).grid_seq()) ==> gravity_ok(final(self).grid_seq()))
                &&& forall|d: int|
                    0 <= d < 7 ==> #[trigger] empties_in_col(final(self).grid_seq(), d) + (if d
                        == col as int {
                        1nat
                    } else {
                        0nat
                    }) == empties_in_col(old(self).grid_seq(), d)
            }),
    {
        if col < 0 || col >= 7 {
            return None;
        }
        let c = col as usize;
        if self.grid[c] != Token::Empty {
            // the topmost cell is taken, so the whole column is full
            return Some(false);
        }
        let ghost g0 = self.grid@;
        let ghost s0 = self.slots@;

        // Find one droppable entry for this column; the well-formedness
        // invariant guarantees there is one, because the top cell is empty.
        proof {
            lemma_empty_cell_empties_pos(g0, c as int, 0, 6);
            assert(g0 == self.grid_seq());
            assert(s0 == self.slots_seq());
            assert(empties_in_col(self.grid_seq(), c as int) > 0);
            assert(self.slots_seq().to_multiset().count(c as u8) > 0);
            broadcast use vstd::seq_lib::group_to_multiset_ensures;

            assert(self.slots@.contains(c as u8));
        }
        let mut j: usize = 0;
        while j < self.slots.len() && self.slots[j] != (c as u8)
            invariant
                j <= self.slots@.len(),
                forall|k: int| 0 <= k < j ==> self.slots@[k] != c as u8,
                self.grid@ == g0,
                self.slots@ == s0,
                self.slots@.contains(c as u8),
            decreases self.slots@.len() - j,
        {
            j += 1;
        }
        assert(j < self.slots@.len() && self.slots@[j as int] == c as u8) by {
            let witness = choose|k: int| 0 <= k < s0.len() && s0[k] == c as u8;
            assert(s0[witness] == c as u8);
        }

        // Scan the column from the bottom row upwards for the first empty
        // cell; the token comes to rest there.
        let mut row: usize = 6;
        while row > 0
            invariant
                row <= 6,
                c < 7,
                col == c as i8,
                token != Token::Empty,
                old(self).wf(),
                g0 == old(self).grid_seq(),
                s0 == old(self).slots_seq(),
                self.grid@ == g0,
                self.slots@ == s0,
                g0.len() == 42,
                cell(g0, 0, c as int) == Token::Empty,
                j < s0.len() && s0[j as int] == c as u8,
                forall|k: int| row <= k < 6 ==> cell(g0, k, c as int) != Token::Empty,
            decreases row,
        {
            row -= 1;
            if self.grid[row * 7 + c] == Token::Empty {
                proof {
                    lemma_lowest_empty_at(g0, c as int, row as int);
                }
                self.grid[row * 7 + c] = token;
                self.slots.remove(j);
                proof {
                    let g1 = self.grid@;
                    let s1 = self.slots@;
                    assert(g1 == g0.update(row * 7 + c as int, token));
                    lemma_empty_cell_empties_pos(g0, c as int, 0, 6);
                    assert(s0.to_multiset().count(c as u8) >= 1);
                    broadcast use vstd::seq_lib::group_to_multiset_ensures;

                    assert(s1.to_multiset() =~= s0.to_multiset().remove(c as u8));
                    assert forall|d: u8| d < 7 implies s1.to_multiset().count(d)
                        == empties_in_col(g1, d as int) by {
                        lemma_empties_update(g0, row as int, c as int, token, d as int, 6);
                        if d == c as u8 {
                            assert(s1.to_multiset().count(d) == s0.to_multiset().count(d) - 1);
                        } else {
                            assert(s1.to_multiset().count(d) == s0.to_multiset().count(d));
                        }
                    }
                    assert forall|i: int| 0 <= i < s1.len() implies s1[i] < 7 by {
                        s0.remove_ensures(j as int);
                    }
                    assert forall|d: int| 0 <= d < 7 implies empties_in_col(g1, d) + (if d
                        == c as int {
                        1nat
                    } else {
                        0nat
                    }) == empties_in_col(g0, d) by {
                        lemma_empties_update(g0, row as int, c as int, token, d, 6);
                    }
                    lemma_count_tokens_update(g0, (row * 7 + c) as int, token, 42);
                    if gravity_ok(g0) {
                        lemma_gravity_place(g0, c as int, row as int, token);
                    }
                }
                return Some(true);
            }
        }
        // Unreachable: the loop ran out with every row of the column taken,
        // yet the top cell was seen to be empty.
        proof {
            assert(false);
        }
        None
    }

    /// Drops `token` into a column drawn uniformly from the droppable-columns
    /// multiset, so each remaining empty slot is equally likely to receive
    /// it. Returns `None` (and changes nothing) only when the multiset is
    /// exhausted. Under gravity the drawn column always has room, so the
    /// move succeeds and consumes exactly one droppable entry.
    #[verifier::rlimit(100)]
    pub fn random_stroke(&mut self, token: Token) -> (r: Option<bool>)
        requires
            old(self).wf(),
            token != Token::Empty,
        ensures
            final(self).wf(),
            r == None::<bool> <==> old(self).slots_seq().len() == 0,
            old(self).slots_seq().len() == 0 ==> *final(self) == *old(self),
            r == Some(false) ==> *final(self) == *old(self),
            (old(self).slots_seq().len() > 0 && gravity_ok(old(self).grid_seq())) ==> ({
                &&& r == Some(true)
                &&& final(self).slots_seq().len() == old(self).slots_seq().len() - 1
                &&& gravity_ok(final(self).grid_seq())
                &&& count_tokens(final(self).grid_seq()) == count_tokens(old(self).grid_seq()) + 1
                &&& exists|c: int|
                    #![auto]
                    0 <= c < 7 && final(self).grid_seq() == old(self).grid_seq().update(
                        lowest_empty_row(old(self).grid_seq(), c) * 7 + c,
                        token,
                    )
            }),
    {
        if self.slots.len() == 0 {
            return None;
        }
        let i = crate::rng::random_below(self.slots.len());
        let col = self.slots[i];
        proof {
            assert(self.slots_seq()[i as int] == col);
            assert(col < 7);
            broadcast use vstd::seq_lib::group_to_multiset_ensures;

            assert(self.slots_seq().contains(col));
            assert(self.slots_seq().to_multiset().count(col) > 0);
            assert(empties_in_col(self.grid_seq(), col as int) > 0);
            if gravity_ok(self.grid_seq()) {
                lemma_empties_pos_gives_cell(self.grid_seq(), col as int, 6);
                let k = choose|k: int|
                    0 <= k < 6 && #[trigger] cell(self.grid_seq(), k, col as int) == Token::Empty;
                lemma_gravity_top(self.grid_seq(), col as int, k);
            }
        }
        let res = self.player_stroke(token, col as i8);
        proof {
            if old(self).slots_seq().len() > 0 && gravity_ok(old(self).grid_seq()) {
                assert((col as int) < 7 && final(self).grid_seq() == old(self).grid_seq().update(
                    lowest_empty_row(old(self).grid_seq(), col as int) * 7 + col as int,
                    token,
                ));
            }
        }
        res
    }

    /// A board holding exactly the given cells: six rows of seven cells
    /// each, top row first. The droppable-columns multiset is rebuilt to
    /// match, with one entry per empty cell of each column.
    pub fn from_rows(rows: &Vec<Vec<Token>>) -> (b: Board)
        requires
            rows@.len() == 6,
            forall|r: int| 0 <= r < 6 ==> rows@[r]@.len() == 7,
        ensures
            b.wf(),
            forall|r: int, c: int|
                0 <= r < 6 && 0 <= c < 7 ==> #[trigger] cell(b.grid_seq(), r, c) == rows@[r]@[c],
    {
        let mut grid: Vec<Token> = Vec::new();
        for r in 0..6usize
            invariant
                rows@.len() == 6,
                forall|k: int| 0 <= k < 6 ==> rows@[k]@.len() == 7,
                grid@.len() == r * 7,
                forall|i: int, j: int|
                    0 <= i < r && 0 <= j < 7 ==> grid@[i * 7 + j] == rows@[i]@[j],
        {
            for c in 0..7usize
                invariant
                    r < 6,
                    rows@.len() == 6,
                    forall|k: int| 0 <= k < 6 ==> rows@[k]@.len() == 7,
                    grid@.len() == r * 7 + c,
                    forall|i: int, j: int|
                        0 <= i < r && 0 <= j < 7 ==> grid@[i * 7 + j] == rows@[i]@[j],
                    forall|j: int| 0 <= j < c ==> grid@[r * 7 + j] == rows@[r as int]@[j],
            {
                grid.push(rows[r][c]);
            }
        }
        let slots = build_slots(&grid);
        Board { grid, slots }
    }

    /// The game outcome: `Red` if red has four-in-a-row along any axis
    /// (checked first), then `Yellow`, and `Empty` when nobody has won.
    pub fn check_winner(&self) -> (r: Token)
        requires
            self.wf(),
        ensures
            r == winner_spec(self.grid_seq()),
    {
        if self.check_row(&Token::Red) || self.check_column(&Token::Red) || self.check_diagonal(
            &Token::Red,
        ) {
            return Token::Red;
        }
        if self.check_row(&Token::Yellow) || self.check_column(&Token::Yellow)
            || self.check_diagonal(&Token::Yellow) {
            return Token::Yellow;
        }
        Token::Empty
    }
}

/// In a fully empty 42-cell grid, every column has six empty cells.
proof fn lemma_empties_all_empty(g: Seq<Token>, c: int)
    requires
        g.len() == 42,
        forall|i: int| 0 <= i < 42 ==> g[i] == Token::Empty,
        0 <= c < 7,
    ensures
        empties_in_col(g, c) == 6,
{
    assert(empties_in_col_upto(g, c, 0) == 0);
    assert(empties_in_col_upto(g, c, 1) == 1);
    assert(empties_in_col_upto(g, c, 2) == 2);
    assert(empties_in_col_upto(g, c, 3) == 3);
    assert(empties_in_col_upto(g, c, 4) == 4);
    assert(empties_in_col_upto(g, c, 5) == 5);
    assert(empties_in_col_upto(g, c, 6) == 6);
}

/// Builds the droppable-columns entries for a 42-cell grid: one entry per
/// column per empty cell of that column.
fn build_slots(grid: &Vec<Token>) -> (s: Vec<u8>)
    requires
        grid@.len() == 42,
    ensures
        forall|i: int| 0 <= i < s@.len() ==> s@[i] < 7,
        forall|c: u8|
            c < 7 ==> #[trigger] s@.to_multiset().count(c) == empties_in_col(grid@, c as int),
        s@.len() == sum_empties_upto(grid@, 7),
{
    broadcast use vstd::seq_lib::group_to_multiset_ensures;

    let mut s: Vec<u8> = Vec::new();
    for c in 0..7usize
        invariant
            grid@.len() == 42,
            forall|i: int| 0 <= i < s@.len() ==> s@[i] < c,
            forall|d: u8|
                d < c ==> #[trigger] s@.to_multiset().count(d) == empties_in_col(grid@, d as int),
            forall|d: u8| c <= d < 7 ==> #[trigger] s@.to_multiset().count(d) == 0,
            s@.len() == sum_empties_upto(grid@, c as int),
    {
        for r in 0..6usize
            invariant
                grid@.len() == 42,
                c < 7,
                forall|i: int| 0 <= i < s@.len() ==> s@[i] <= c,
                forall|d: u8|
                    d < c ==> #[trigger] s@.to_multiset().count(d) == empties_in_col(
                        grid@,
                        d as int,
                    ),
                forall|d: u8| c < d < 7 ==> #[trigger] s@.to_multiset().count(d) == 0,
                s@.to_multiset().count(c as u8) == empties_in_col_upto(grid@, c as int, r as int),
                s@.len() == sum_empties_upto(grid@, c as int) + empties_in_col_upto(
                    grid@,
                    c as int,
                    r as int,
                ),
        {
            let ghost old_s = s@;
            if grid[r * 7 + c] == Token::Empty {
                s.push(c as u8);
                proof {
                    vstd::seq_lib::to_multiset_build(old_s, c as u8);
                    assert(s@ == old_s.push(c as u8));
                    assert(s@.to_multiset() =~= old_s.to_multiset().insert(c as u8));
                    assert forall|d: u8| d != c implies s@.to_multiset().count(d)
                        == old_s.to_multiset().count(d) by {
                    }
                    assert(s@.to_multiset().count(c as u8) == old_s.to_multiset().count(c as u8)
                        + 1);
                    assert(cell(grid@, r as int, c as int) == Token::Empty);
                    assert(empties_in_col_upto(grid@, c as int, r + 1) == empties_in_col_upto(
                        grid@,
                        c as int,
                        r as int,
                    ) + 1);
                }
            } else {
                proof {
                    assert(cell(grid@, r as int, c as int) != Token::Empty);
                    assert(empties_in_col_upto(grid@, c as int, r + 1) == empties_in_col_upto(
                        grid@,
                        c as int,
                        r as int,
                    ));
                }
            }
        }
    }
    s
}

/// The total number of droppable entries over columns `0 .. c`.
pub open spec fn sum_empties_upto(g: Seq<Token>, c: int) -> nat
    decreases c,
{
    if c <= 0 {
        0
    } else {
        sum_empties_upto(g, c - 1) + empties_in_col(g, c - 1)
    }
}

/// Two row-major positions coincide exactly when row and column both do.
proof fn lemma_index_inj(r1: int, c1: int, r2: int, c2: int)
    requires
        0 <= c1 < 7,
        0 <= c2 < 7,
    ensures
        (r1 * 7 + c1 == r2 * 7 + c2) <==> (r1 == r2 && c1 == c2),
{
}

/// What `lowest_empty_from` returns: an empty cell of the column, with every
/// row strictly below it taken; `-1` exactly when rows `0 ..= r` are taken.
proof fn lemma_lowest_empty_from(g: Seq<Token>, c: int, r: int)
    requires
        -1 <= r,
    ensures
        -1 <= lowest_empty_from(g, c, r) <= r,
        lowest_empty_from(g, c, r) >= 0 ==> cell(g, lowest_empty_from(g, c, r), c)
            == Token::Empty,
        forall|k: int| lowest_empty_from(g, c, r) < k <= r ==> cell(g, k, c) != Token::Empty,
    decreases r + 1,
{
    if r >= 0 && cell(g, r, c) != Token::Empty {
        lemma_lowest_empty_from(g, c, r - 1);
    }
}

/// A column whose cell at `r0` is empty, with every row below `r0` taken,
/// has `r0` as its lowest empty row.
proof fn lemma_lowest_empty_at(g: Seq<Token>, c: int, r0: int)
    requires
        0 <= r0 < 6,
        cell(g, r0, c) == Token::Empty,
        forall|k: int| r0 < k < 6 ==> cell(g, k, c) != Token::Empty,
    ensures
        lowest_empty_row(g, c) == r0,
{
    lemma_lowest_empty_from(g, c, 5);
    let le = lowest_empty_from(g, c, 5);
    if le < r0 {
        assert(cell(g, r0, c) != Token::Empty);
    }
    if le > r0 {
        assert(cell(g, le, c) != Token::Empty);
    }
}

/// A column with an empty cell in rows `0 .. r` has a positive empty count.
proof fn lemma_empty_cell_empties_pos(g: Seq<Token>, c: int, k: int, r: int)
    requires
        0 <= k < r,
        cell(g, k, c) == Token::Empty,
    ensures
        empties_in_col_upto(g, c, r) > 0,
    decreases r,
{
    if k < r - 1 {
        lemma_empty_cell_empties_pos(g, c, k, r - 1);
    }
}

/// A column with a positive empty count has an empty cell in rows `0 .. r`.
proof fn lemma_empties_pos_gives_cell(g: Seq<Token>, c: int, r: int)
    requires
        empties_in_col_upto(g, c, r) > 0,
    ensures
        exists|k: int| 0 <= k < r && #[trigger] cell(g, k, c) == Token::Empty,
    decreases r,
{
    if r > 0 {
        if cell(g, r - 1, c) == Token::Empty {
            assert(0 <= r - 1 < r && cell(g, r - 1, c) == Token::Empty);
        } else {
            lemma_empties_pos_gives_cell(g, c, r - 1);
        }
    }
}

/// Under gravity, a column with any empty cell has an empty top cell.
proof fn lemma_gravity_top(g: Seq<Token>, c: int, k: int)
    requires
        gravity_ok(g),
        0 <= k < 6,
        0 <= c < 7,
        cell(g, k, c) == Token::Empty,
    ensures
        cell(g, 0, c) == Token::Empty,
    decreases k,
{
    if k > 0 {
        assert(cell(g, k - 1, c) == Token::Empty) by {
            if cell(g, k - 1, c) != Token::Empty {
                assert(cell(g, k, c) != Token::Empty);
            }
        }
        lemma_gravity_top(g, c, k - 1);
    }
}

/// Writing a token into an empty cell of column `c0` lowers that column's
/// empty count by one (within rows `0 .. r` containing the write) and leaves
/// every other column's count unchanged.
proof fn lemma_empties_update(g: Seq<Token>, r0: int, c0: int, t: Token, c: int, r: int)
    requires
        g.len() == 42,
        0 <= r0 < 6,
        0 <= c0 < 7,
        0 <= c < 7,
        0 <= r <= 6,
        t != Token::Empty,
        cell(g, r0, c0) == Token::Empty,
    ensures
        empties_in_col_upto(g.update(r0 * 7 + c0, t), c, r) + (if c == c0 && r0 < r {
            1nat
        } else {
            0nat
        }) == empties_in_col_upto(g, c, r),
    decreases r,
{
    if r > 0 {
        lemma_empties_update(g, r0, c0, t, c, r - 1);
        lemma_index_inj(r - 1, c, r0, c0);
    }
}

/// Writing a token into an empty cell raises the count of the first `i`
/// cells by one when the cell lies among them, and by nothing otherwise.
proof fn lemma_count_tokens_update(g: Seq<Token>, idx: int, t: Token, i: int)
    requires
        0 <= idx < g.len(),
        g[idx] == Token::Empty,
        t != Token::Empty,
        i <= g.len(),
    ensures
        count_tokens_upto(g.update(idx, t), i) == count_tokens_upto(g, i) + (if idx < i {
            1nat
        } else {
            0nat
        }),
    decreases i,
{
    if i > 0 {
        lemma_count_tokens_update(g, idx, t, i - 1);
    }
}

/// Dropping a token to the lowest empty row of a column preserves gravity.
#[verifier::rlimit(100)]
proof fn lemma_gravity_place(g: Seq<Token>, c: int, r0: int, t: Token)
    requires
        gravity_ok(g),
        g.len() == 42,
        0 <= c < 7,
        0 <= r0 < 6,
        lowest_empty_row(g, c) == r0,
        t != Token::Empty,
    ensures
        gravity_ok(g.update(r0 * 7 + c, t)),
{
    let g1 = g.update(r0 * 7 + c, t);
    lemma_lowest_empty_from(g, c, 5);
    assert forall|r2: int, c2: int|
        0 <= r2 < 5 && 0 <= c2 < 7 && #[trigger] cell(g1, r2, c2) != Token::Empty implies cell(
        g1,
        r2 + 1,
        c2,
    ) != Token::Empty by {
        lemma_index_inj(r2, c2, r0, c);
        lemma_index_inj(r2 + 1, c2, r0, c);
        if r2 == r0 && c2 == c {
            // the placed cell: the row below it was already taken
            assert(cell(g, r2 + 1, c2) != Token::Empty);
        } else {
            // an untouched cell; the cell below it can only have gained
            assert(cell(g, r2, c2) != Token::Empty);
            assert(cell(g, r2 + 1, c2) != Token::Empty);
            if r2 + 1 == r0 && c2 == c {
                assert(cell(g, r0, c) == Token::Empty);
            }
        }
    }
}

/// The droppable-columns multiset is exhausted exactly when the grid is
/// full: a board with any empty cell still offers a legal random move, and
/// a full board offers none.
pub proof fn lemma_full_iff_no_slots(b: &Board)
    requires
        b.wf(),
    ensures
        full_spec(b.grid_seq()) <==> b.slots_seq().len() == 0,
{
    broadcast use vstd::seq_lib::group_to_multiset_ensures;

    let g = b.grid_seq();
    let s = b.slots_seq();
    if full_spec(g) {
        if s.len() > 0 {
            let d = s[0];
            assert(s.contains(d));
            assert(s.to_multiset().count(d) > 0);
            assert(empties_in_col(g, d as int) > 0);
            lemma_empties_pos_gives_cell(g, d as int, 6);
            let k = choose|k: int| 0 <= k < 6 && #[trigger] cell(g, k, d as int) == Token::Empty;
            assert(g[k * 7 + d] == Token::Empty);
            assert(false);
        }
    } else {
        let i = choose|i: int| 0 <= i < 42 && g[i] == Token::Empty;
        let r = i / 7;
        let c = i % 7;
        assert(0 <= r < 6 && 0 <= c < 7);
        assert(cell(g, r, c) == Token::Empty);
        lemma_empty_cell_empties_pos(g, c, r, 6);
        assert(s.to_multiset().count(c as u8) > 0);
        assert(s.contains(c as u8));
        assert(s.len() > 0);
    }
}

/// Each column's empty-cell count never exceeds the number of rows counted.
proof fn lemma_empties_bounded(g: Seq<Token>, c: int, r: int)
    requires
        r >= 0,
    ensures
        empties_in_col_upto(g, c, r) <= r,
    decreases r,
{
    if r > 0 {
        lemma_empties_bounded(g, c, r - 1);
    }
}

/// A token placed anywhere counts: over any sequence of attempted moves,
/// the number of cells holding a token grows by exactly the number of moves
/// that succeed, and by nothing else.
pub proof fn lemma_token_count_tracks_successes(g: Seq<Token>, moves: Seq<(Token, int)>)
    requires
        g.len() == 42,
        forall|i: int| 0 <= i < moves.len() ==> (#[trigger] moves[i]).0 != Token::Empty,
    ensures
        count_tokens(apply_moves(g, moves)) == count_tokens(g) + count_successes(g, moves),
    decreases moves.len(),
{
    if moves.len() > 0 {
        let t = moves[0].0;
        let c = moves[0].1;
        let g1 = place_grid(g, t, c);
        if place_ok(g, c) {
            lemma_lowest_empty_from(g, c, 5);
            let le = lowest_empty_row(g, c);
            assert(cell(g, 0, c) == Token::Empty);
            if le < 0 {
                assert(cell(g, 0, c) != Token::Empty);
            }
            assert(g[le * 7 + c] == Token::Empty);
            lemma_count_tokens_update(g, le * 7 + c, t, 42);
        }
        assert(g1.len() == 42);
        assert(forall|i: int|
            0 <= i < moves.skip(1).len() ==> (#[trigger] moves.skip(1)[i]).0 != Token::Empty);
        lemma_token_count_tracks_successes(g1, moves.skip(1));
    }
}

/// A column holds at most six tokens: under gravity a move into it lands
/// exactly while the column still has an empty cell, and it never has more
/// than six of those. So six successful drops fill a column, and the next
/// attempt is refused with the column-full result.
#[verifier::rlimit(100)]
pub proof fn lemma_column_capacity(g: Seq<Token>, c: int)
    requires
        g.len() == 42,
        gravity_ok(g),
        0 <= c < 7,
    ensures
        place_ok(g, c) <==> empties_in_col(g, c) > 0,
        empties_in_col(g, c) <= 6,
{
    lemma_empties_bounded(g, c, 6);
    if place_ok(g, c) {
        lemma_empty_cell_empties_pos(g, c, 0, 6);
    }
    if empties_in_col(g, c) > 0 {
        lemma_empties_pos_gives_cell(g, c, 6);
        let k = choose|k: int| 0 <= k < 6 && #[trigger] cell(g, k, c) == Token::Empty;
        lemma_gravity_top(g, c, k);
    }
}

/// Gravity holds after every attempted move on a grid that had it: a
/// successful drop fills the lowest empty cell of its column, and a failed
/// one changes nothing.
#[verifier::rlimit(100)]
pub proof fn lemma_place_preserves_gravity(g: Seq<Token>, t: Token, c: int)
    requires
        g.len() == 42,
        gravity_ok(g),
        t != Token::Empty,
    ensures
        gravity_ok(place_grid(g, t, c)),
{
    if place_ok(g, c) {
        lemma_lowest_empty_from(g, c, 5);
        let le = lowest_empty_row(g, c);
        assert(cell(g, 0, c) == Token::Empty);
        if le < 0 {
            assert(cell(g, 0, c) != Token::Empty);
        }
        lemma_gravity_place(g, c, le, t);
    }
}

/// Neither player has four-in-a-row on an all-empty grid.
proof fn lemma_no_win_all_empty(g: Seq<Token>, t: Token)
    requires
        g.len() == 42,
        forall|i: int| 0 <= i < 42 ==> g[i] == Token::Empty,
        t != Token::Empty,
    ensures
        !is_winner(g, t),
{
    assert forall|r: int, c: int| 0 <= r < 6 && 0 <= c < 4 implies !horiz_win_at(g, t, r, c) by {
        assert(g[r * 7 + c] == Token::Empty);
    }
    assert forall|r: int, c: int| 0 <= r < 3 && 0 <= c < 7 implies !vert_win_at(g, t, r, c) by {
        assert(g[r * 7 + c] == Token::Empty);
    }
    assert forall|r: int, c: int| 0 <= r < 3 && 0 <= c < 4 implies !diag_dr_win_at(g, t, r, c) by {
        assert(g[r * 7 + c] == Token::Empty);
    }
    assert forall|r: int, c: int| 0 <= r < 3 && 3 <= c < 7 implies !diag_dl_win_at(g, t, r, c) by {
        assert(g[r * 7 + c] == Token::Empty);
    }
}

/// An untouched board has no winner: the outcome of an all-empty grid is
/// the no-winner token.
pub proof fn lemma_empty_board_no_winner(g: Seq<Token>)
    requires
        g.len() == 42,
        forall|i: int| 0 <= i < 42 ==> g[i] == Token::Empty,
    ensures
        winner_spec(g) == Token::Empty,
{
    lemma_no_win_all_empty(g, Token::Red);
    lemma_no_win_all_empty(g, Token::Yellow);
}

/// A four-in-a-row never goes unreported: when a player has one, the
/// outcome names a winner, and a red one always names red.
pub proof fn lemma_win_reported(g: Seq<Token>, t: Token)
    requires
        is_winner(g, t),
        t != Token::Empty,
    ensures
        winner_spec(g) != Token::Empty,
        t == Token::Red ==> winner_spec(g) == Token::Red,
{
}

/// Tokens are never overwritten or cleared: a move, successful or not,
/// leaves every cell that already held a token exactly as it was.
pub proof fn lemma_tokens_persist(g: Seq<Token>, t: Token, c: int, r2: int, c2: int)
    requires
        g.len() == 42,
        0 <= r2 < 6,
        0 <= c2 < 7,
        cell(g, r2, c2) != Token::Empty,
    ensures
        cell(place_grid(g, t, c), r2, c2) == cell(g, r2, c2),
{
    if place_ok(g, c) {
        lemma_lowest_empty_from(g, c, 5);
        let le = lowest_empty_row(g, c);
        assert(cell(g, 0, c) == Token::Empty);
        if le < 0 {
            assert(cell(g, 0, c) != Token::Empty);
        }
        lemma_index_inj(r2, c2, le, c);
    }
}

} // verus!
