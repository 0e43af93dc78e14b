//! The frame of a running game: board, turn controller, cursor and the
//! display grid that mirrors the board.
use crate::board::{
    CELLS, Cell, Player, after_move, apply_move, count_cells, has_move, is_legal, legal,
    legal_moves, lemma_legal_moves, move_reward, moves_of, opponent, reward_for, total_flips,
};
use crate::config::{Othello, TileConfig, has_marker, tile_index};
use crate::learner::{
    QTable, answered, entry_key, greedy_choice, keeps_keys, looked_up, td_value, value_of,
};
use vstd::prelude::*;

verus! {

/// Result of a finished game.
#[derive(Debug, Clone, Copy, PartialEq, Eq, Structural)]
pub enum Outcome {
    BlackWins,
    WhiteWins,
    Tie,
}

/// The side with strictly more stones wins; equal counts tie.
pub open spec fn outcome_of(b: Seq<Cell>) -> Outcome {
    let black = count_cells(b, Cell::Black);
    let white = count_cells(b, Cell::White);
    if black > white {
        Outcome::BlackWins
    } else if black < white {
        Outcome::WhiteWins
    } else {
        Outcome::Tie
    }
}

/// Who moves after `t` moved on `b`: the other side, unless it has no legal move.
pub open spec fn next_turn(b: Seq<Cell>, t: Player) -> Player {
    if has_move(b, opponent(t)) {
        opponent(t)
    } else {
        t
    }
}

/// Neither side has a legal move on `b`.
pub open spec fn both_stuck(b: Seq<Cell>) -> bool {
    !has_move(b, Player::Black) && !has_move(b, Player::White)
}

/// Number of squares of `b` that hold `v`.
pub fn count_of(b: &Vec<Cell>, v: Cell) -> (n: usize)
    ensures
        n == count_cells(b@, v),
{
    let mut n: usize = 0;
    let mut j: usize = 0;
    while j < b.len()
        invariant
            j <= b@.len(),
            n == count_cells(b@.subrange(0, j as int), v),
            n <= j,
        decreases b@.len() - j,
    {
        proof {
            assert(b@.subrange(0, j as int + 1).drop_last() =~= b@.subrange(0, j as int));
        }
        if b[j] == v {
            n = n + 1;
        }
        j = j + 1;
    }
    proof {
        assert(b@.subrange(0, b@.len() as int) =~= b@);
    }
    n
}

/// Counts the stones and names the winner.
pub fn outcome(b: &Vec<Cell>) -> (o: Outcome)
    ensures
        o == outcome_of(b@),
{
    let black = count_of(b, Cell::Black);
    let white = count_of(b, Cell::White);
    if black > white {
        Outcome::BlackWins
    } else if black < white {
        Outcome::WhiteWins
    } else {
        Outcome::Tie
    }
}

/// The display grid as rows of tile indices.
pub open spec fn grid_view(g: Seq<Vec<usize>>) -> Seq<Seq<usize>> {
    g.map_values(|row: Vec<usize>| row@)
}

/// Tile shown for square content `v`.
pub open spec fn tile_for(v: Cell, t1: usize, t2: usize) -> usize {
    if v == Cell::Black {
        t1
    } else {
        t2
    }
}

/// The grid with every occupied square of `b` (one cell in from the border)
/// showing its player's tile.
pub open spec fn painted(g: Seq<Seq<usize>>, b: Seq<Cell>, t1: usize, t2: usize) -> Seq<Seq<usize>> {
    Seq::new(
        g.len(),
        |i: int|
            Seq::new(
                g[i].len(),
                |j: int|
                    if 1 <= i <= 8 && 1 <= j <= 8 && b[(i - 1) * 8 + (j - 1)] != Cell::Empty {
                        tile_for(b[(i - 1) * 8 + (j - 1)], t1, t2)
                    } else {
                        g[i][j]
                    },
            ),
    )
}

/// Where a cursor at `p` ends after a step of (dx, dy) on grid `g`: on the
/// new tile if it lies in the grid and is walkable, else where it was.
pub open spec fn walk_dest(g: Seq<Seq<usize>>, tiles: Seq<TileConfig>, p: (i32, i32), dx: int, dy: int) -> (
    i32,
    i32,
) {
    let nx = p.0 + dx;
    let ny = p.1 + dy;
    if 0 <= nx < g[0].len() && 0 <= ny < g.len() && tiles[g[ny][nx] as int].walkable {
        (nx as i32, ny as i32)
    } else {
        p
    }
}

/// `score + reward`, held at the largest `i32`.
pub open spec fn add_score(score: int, reward: int) -> i32 {
    if score + reward <= i32::MAX {
        (score + reward) as i32
    } else {
        i32::MAX
    }
}
/// `painted` restricted to the first `n` squares of the board.
pub open spec fn painted_upto(g: Seq<Seq<usize>>, b: Seq<Cell>, t1: usize, t2: usize, n: int) -> Seq<
    Seq<usize>,
> {
    Seq::new(
        g.len(),
        |i: int|
            Seq::new(
                g[i].len(),
                |j: int|
                    if 1 <= i <= 8 && 1 <= j <= 8 && (i - 1) * 8 + (j - 1) < n && b[(i - 1) * 8 + (j
                        - 1)] != Cell::Empty {
                        tile_for(b[(i - 1) * 8 + (j - 1)], t1, t2)
                    } else {
                        g[i][j]
                    },
            ),
    )
}

/// Everything that changes while a game is played.
#[derive(Debug)]
pub struct FrameState {
    pub game_over: bool,
    pub step: usize,
    pub score: i32,
    pub player1_becomes: usize,
    pub player2_becomes: usize,
    pub board: Vec<Cell>,
    pub tiles: Vec<TileConfig>,
    pub grid: Vec<Vec<usize>>,
    pub turn: Player,
    pub player: (i32, i32),
    pub q_table: QTable,
}

/// A copy of the display grid.
pub fn copy_grid(g: &Vec<Vec<usize>>) -> (r: Vec<Vec<usize>>)
    ensures
        grid_view(r@) == grid_view(g@),
{
    let mut r: Vec<Vec<usize>> = Vec::new();
    let mut i: usize = 0;
    while i < g.len()
        invariant
            i <= g@.len(),
            r@.len() == i,
            forall|k: int| 0 <= k < i ==> (#[trigger] r@[k])@ == g@[k]@,
        decreases g@.len() - i,
    {
        let row = g[i].clone();
        assert(row@ =~= g@[i as int]@);
        r.push(row);
        i = i + 1;
    }
    assert(grid_view(r@) =~= grid_view(g@));
    r
}

/// Two frames hold the same contents, field by field.
pub open spec fn same_frame(a: FrameState, b: FrameState) -> bool {
    &&& a.game_over == b.game_over
    &&& a.step == b.step
    &&& a.score == b.score
    &&& a.player1_becomes == b.player1_becomes
    &&& a.player2_becomes == b.player2_becomes
    &&& a.board@ == b.board@
    &&& a.tiles@ == b.tiles@
    &&& grid_view(a.grid@) == grid_view(b.grid@)
    &&& a.turn == b.turn
    &&& a.player == b.player
    &&& a.q_table@ == b.q_table@
    &&& a.q_table.rates == b.q_table.rates
}

impl Clone for FrameState {
    fn clone(&self) -> (r: FrameState)
        ensures
            same_frame(r, *self),
    {
        FrameState {
            game_over: self.game_over,
            step: self.step,
            score: self.score,
            player1_becomes: self.player1_becomes,
            player2_becomes: self.player2_becomes,
            board: self.board.clone(),
            tiles: self.tiles.clone(),
            grid: copy_grid(&self.grid),
            turn: self.turn,
            player: self.player,
            q_table: self.q_table.duplicate(),
        }
    }
}

/// A grid of at least 9 by 9 tiles, every row as long as the first, every
/// entry a tile index below `n`.
pub open spec fn grid_wf(g: Seq<Seq<usize>>, n: nat) -> bool {
    &&& 9 <= g.len() <= i32::MAX
    &&& 9 <= g[0].len() <= i32::MAX
    &&& forall|i: int| 0 <= i < g.len() ==> #[trigger] g[i].len() == g[0].len()
    &&& forall|i: int, j: int| 0 <= i < g.len() && 0 <= j < g[i].len() ==> #[trigger] g[i][j] < n
}

impl FrameState {
    pub open spec fn wf(&self) -> bool {
        &&& self.board@.len() == CELLS
        &&& self.q_table.wf()
        &&& grid_wf(grid_view(self.grid@), self.tiles@.len())
        &&& self.player1_becomes < self.tiles@.len()
        &&& self.player2_becomes < self.tiles@.len()
    }

    /// Whether the frame is well formed, for frames built from outside data.
    pub fn is_valid(&self) -> (ok: bool)
        ensures
            ok == self.wf(),
    {
        let n = self.tiles.len();
        if self.board.len() != CELLS || !self.q_table.is_valid() || self.player1_becomes >= n
            || self.player2_becomes >= n {
            return false;
        }
        let h = self.grid.len();
        if h < 9 || h > i32::MAX as usize {
            return false;
        }
        let w = self.grid[0].len();
        if w < 9 || w > i32::MAX as usize {
            return false;
        }
        let ghost g = grid_view(self.grid@);
        assert(g[0].len() == w);
        let mut i: usize = 0;
        while i < h
            invariant
                g == grid_view(self.grid@),
                h == g.len(),
                w == g[0].len(),
                n == self.tiles@.len(),
                i <= h,
                forall|a: int| 0 <= a < i ==> #[trigger] g[a].len() == w,
                forall|a: int, b: int| 0 <= a < i && 0 <= b < g[a].len() ==> #[trigger] g[a][b] < n,
            decreases h - i,
        {
            assert(g[i as int] == self.grid@[i as int]@);
            if self.grid[i].len() != w {
                return false;
            }
            let mut j: usize = 0;
            while j < w
                invariant
                    g == grid_view(self.grid@),
                    i < h,
                    h == g.len(),
                    g[i as int].len() == w,
                    g[i as int] == self.grid@[i as int]@,
                    n == self.tiles@.len(),
                    j <= w,
                    forall|b: int| 0 <= b < j ==> #[trigger] g[i as int][b] < n,
                decreases w - j,
            {
                if self.grid[i][j] >= n {
                    return false;
                }
                j = j + 1;
            }
            i = i + 1;
        }
        true
    }

    /// Whether the side to move may play at one-based column `x`, row `y`.
    /// Out-of-range coordinates are never legal. Reads the board only.
    pub fn check_move(&self, x: i32, y: i32) -> (ok: bool)
        requires
            self.board@.len() == CELLS,
        ensures
            ok == legal(self.board@, self.turn, y - 1, x - 1),
    {
        if x < 1 || x > 8 || y < 1 || y > 8 {
            return false;
        }
        is_legal(&self.board, self.turn, y - 1, x - 1)
    }

    /// Shows every stone of the board on the display grid.
    pub fn paint_grid(&mut self)
        requires
            old(self).wf(),
        ensures
            final(self).wf(),
            grid_view(final(self).grid@) == painted(
                grid_view(old(self).grid@),
                old(self).board@,
                old(self).player1_becomes,
                old(self).player2_becomes,
            ),
            final(self).board == old(self).board,
            final(self).tiles == old(self).tiles,
            final(self).turn == old(self).turn,
            final(self).q_table == old(self).q_table,
            final(self).player1_becomes == old(self).player1_becomes,
            final(self).player2_becomes == old(self).player2_becomes,
            final(self).game_over == old(self).game_over,
            final(self).step == old(self).step,
            final(self).score == old(self).score,
            final(self).player == old(self).player,
    {
        let ghost g0 = grid_view(self.grid@);
        let t1 = self.player1_becomes;
        let t2 = self.player2_becomes;
        proof {
            assert(painted_upto(g0, self.board@, t1, t2, 0) =~~= g0);
        }
        let mut k: usize = 0;
        while k < 64
            invariant
                self.wf(),
                k <= 64,
                t1 == self.player1_becomes,
                t2 == self.player2_becomes,
                self.board == old(self).board,
                self.tiles == old(self).tiles,
                self.turn == old(self).turn,
                self.q_table == old(self).q_table,
                self.player1_becomes == old(self).player1_becomes,
                self.player2_becomes == old(self).player2_becomes,
                self.game_over == old(self).game_over,
                self.step == old(self).step,
                self.score == old(self).score,
                self.player == old(self).player,
                g0 == grid_view(old(self).grid@),
                grid_view(self.grid@) == painted_upto(g0, self.board@, t1, t2, k as int),
            decreases 64 - k,
        {
            let ghost before = grid_view(self.grid@);
            let v = self.board[k];
            let i = k / 8 + 1;
            let j = k % 8 + 1;
            if v != Cell::Empty {
                let t = if v == Cell::Black {
                    t1
                } else {
                    t2
                };
                assert(before[i as int] == self.grid@[i as int]@);
                assert(before[i as int].len() == before[0].len());
                self.grid[i][j] = t;
                assert(grid_view(self.grid@) =~~= before.update(
                    i as int,
                    before[i as int].update(j as int, t),
                ));
            }
            proof {
                let after = grid_view(self.grid@);
                let want = painted_upto(g0, self.board@, t1, t2, k as int + 1);
                assert(after.len() == want.len());
                assert forall|a: int| 0 <= a < after.len() implies #[trigger] after[a].len()
                    == want[a].len() by {
                    assert(before[a].len() == g0[a].len());
                }
                assert forall|a: int, c: int|
                    0 <= a < after.len() && 0 <= c < after[a].len() implies #[trigger] after[a][c]
                    == want[a][c] by {
                    if 1 <= a <= 8 && 1 <= c <= 8 {
                        assert((a - 1) * 8 + (c - 1) == k <==> (a == i && c == j));
                    }
                }
                assert(grid_view(self.grid@) =~~= painted_upto(g0, self.board@, t1, t2, k as int + 1));
            }
            k = k + 1;
        }
        proof {
            assert(painted_upto(g0, self.board@, t1, t2, 64) =~~= painted(g0, self.board@, t1, t2));
        }
    }

    /// Plays the side to move at one-based column `x`, row `y`: places the
    /// stone, turns every captured run, shows the stones on the grid and
    /// returns the positional reward of the move.
    pub fn flip_tiles(&mut self, x: i32, y: i32) -> (reward: i32)
        requires
            old(self).wf(),
            1 <= x <= 8,
            1 <= y <= 8,
        ensures
            final(self).wf(),
            final(self).board@ == after_move(old(self).board@, old(self).turn, y - 1, x - 1),
            reward == reward_for(
                y - 1,
                x - 1,
                total_flips(old(self).board@, old(self).turn, y - 1, x - 1) as int,
            ),
            0 <= reward <= 76,
            grid_view(final(self).grid@) == painted(
                grid_view(old(self).grid@),
                final(self).board@,
                old(self).player1_becomes,
                old(self).player2_becomes,
            ),
            final(self).tiles == old(self).tiles,
            final(self).turn == old(self).turn,
            final(self).q_table == old(self).q_table,
            final(self).player1_becomes == old(self).player1_becomes,
            final(self).player2_becomes == old(self).player2_becomes,
            final(self).game_over == old(self).game_over,
            final(self).step == old(self).step,
            final(self).score == old(self).score,
            final(self).player == old(self).player,
    {
        let flips = apply_move(&mut self.board, self.turn, y - 1, x - 1);
        self.paint_grid();
        move_reward(y - 1, x - 1, flips)
    }

    /// Hands the move to the other side, unless that side has no legal
    /// move, in which case the side to move keeps it. When neither side can
    /// move the game is over and the result is returned.
    pub fn change_turn(&mut self) -> (o: Option<Outcome>)
        requires
            old(self).wf(),
        ensures
            final(self).wf(),
            final(self).turn == next_turn(old(self).board@, old(self).turn),
            final(self).game_over == (old(self).game_over || both_stuck(old(self).board@)),
            o == (if both_stuck(old(self).board@) {
                Some(outcome_of(old(self).board@))
            } else {
                None
            }),
            final(self).board == old(self).board,
            final(self).grid == old(self).grid,
            final(self).tiles == old(self).tiles,
            final(self).q_table == old(self).q_table,
            final(self).player1_becomes == old(self).player1_becomes,
            final(self).player2_becomes == old(self).player2_becomes,
            final(self).step == old(self).step,
            final(self).score == old(self).score,
            final(self).player == old(self).player,
    {
        let mover_stuck = self.terminal().len() == 0;
        self.turn = self.turn.other();
        let other_stuck = self.terminal().len() == 0;
        let mut result = None;
        if mover_stuck && other_stuck {
            self.game_over = true;
            result = Some(outcome(&self.board));
        }
        if other_stuck {
            self.turn = self.turn.other();
        }
        result
    }

    /// The learning opponent's choice for the side to move: the greatest
    /// value when `max` holds, epsilon-greedy otherwise. The values looked
    /// up get entries; no value changes.
    pub fn get_greedy_move(&mut self, max: bool) -> (m: (i32, i32))
        requires
            old(self).wf(),
            has_move(old(self).board@, old(self).turn),
        ensures
            final(self).wf(),
            legal(old(self).board@, old(self).turn, m.1 - 1, m.0 - 1),
            max ==> m == greedy_choice(old(self).q_table@, old(self).board@, old(self).turn),
            max ==> final(self).q_table@ == looked_up(old(self).q_table@, old(self).board@, old(self).turn),
            final(self).q_table@ == old(self).q_table@ || final(self).q_table@ == looked_up(
                old(self).q_table@,
                old(self).board@,
                old(self).turn,
            ),
            forall|key: int| value_of(final(self).q_table@, key) == value_of(old(self).q_table@, key),
            final(self).q_table.rates == old(self).q_table.rates,
            final(self).board == old(self).board,
            final(self).grid == old(self).grid,
            final(self).tiles == old(self).tiles,
            final(self).turn == old(self).turn,
            final(self).player1_becomes == old(self).player1_becomes,
            final(self).player2_becomes == old(self).player2_becomes,
            final(self).game_over == old(self).game_over,
            final(self).step == old(self).step,
            final(self).score == old(self).score,
            final(self).player == old(self).player,
    {
        if max {
            proof {
                crate::learner::lemma_with_defaults(
                    self.q_table@,
                    self.board@,
                    legal_moves(self.board@, self.turn),
                    legal_moves(self.board@, self.turn).len() as int,
                );
            }
            self.q_table.greedy(&self.board, self.turn)
        } else {
            self.q_table.explore(&self.board, self.turn)
        }
    }

    /// Trains the table by play of the White learner from its move at
    /// column `x`, row `y`, on a scratch copy of the board (see
    /// `QTable::learn_from`); only the table changes. An illegal move leaves
    /// the table as it is. Otherwise, once Black has answered with its
    /// greedy moves, the move's value gets its temporal-difference update if
    /// White can move again, and no other value of a board at least as empty
    /// as this one changes. No entry is removed.
    pub fn update_qtable(&mut self, x: i32, y: i32)
        requires
            old(self).wf(),
        ensures
            final(self).wf(),
            final(self).q_table.rates == old(self).q_table.rates,
            keeps_keys(old(self).q_table@, final(self).q_table@),
            !legal(old(self).board@, Player::White, y - 1, x - 1) ==> final(self).q_table@ == old(
                self,
            ).q_table@,
            ({
                let t = old(self).q_table@;
                let b0 = old(self).board@;
                let b1 = answered(t, after_move(b0, Player::White, y - 1, x - 1), Player::White);
                let key0 = entry_key(b0, (x, y));
                legal(b0, Player::White, y - 1, x - 1) && has_move(b1, Player::White) ==> value_of(
                    final(self).q_table@,
                    key0,
                ) == td_value(
                    old(self).q_table.rates,
                    value_of(t, key0) as int,
                    reward_for(y - 1, x - 1, total_flips(b0, Player::White, y - 1, x - 1) as int),
                    value_of(t, entry_key(b1, greedy_choice(t, b1, Player::White))) as int,
                )
            }),
            legal(old(self).board@, Player::White, y - 1, x - 1) && !has_move(
                answered(
                    old(self).q_table@,
                    after_move(old(self).board@, Player::White, y - 1, x - 1),
                    Player::White,
                ),
                Player::White,
            ) ==> forall|key: int|
                value_of(final(self).q_table@, key) == value_of(old(self).q_table@, key),
            forall|s: Seq<Cell>, m: (i32, i32)|
                s.len() == 64 && 1 <= m.0 <= 8 && 1 <= m.1 <= 8 && count_cells(s, Cell::Empty)
                    >= count_cells(old(self).board@, Cell::Empty) && entry_key(s, m) != entry_key(
                    old(self).board@,
                    (x, y),
                ) ==> #[trigger] value_of(final(self).q_table@, entry_key(s, m)) == value_of(
                    old(self).q_table@,
                    entry_key(s, m),
                ),
            final(self).board == old(self).board,
            final(self).grid == old(self).grid,
            final(self).tiles == old(self).tiles,
            final(self).turn == old(self).turn,
            final(self).player1_becomes == old(self).player1_becomes,
            final(self).player2_becomes == old(self).player2_becomes,
            final(self).game_over == old(self).game_over,
            final(self).step == old(self).step,
            final(self).score == old(self).score,
            final(self).player == old(self).player,
    {
        self.q_table.learn_from(&self.board, Player::White, x, y);
    }

    /// Width and height of the display grid.
    pub fn size(&self) -> (r: (i32, i32))
        requires
            self.wf(),
        ensures
            r.0 == grid_view(self.grid@)[0].len(),
            r.1 == self.grid@.len(),
    {
        let height = self.grid.len() as i32;
        let width = self.grid[0].len() as i32;
        (width, height)
    }

    /// The tile at column `tx`, row `ty` of the display grid, if inside it.
    pub fn get_tile(&self, tx: i32, ty: i32) -> (t: Option<&TileConfig>)
        requires
            self.wf(),
        ensures
            match t {
                Some(tile) => 0 <= tx < grid_view(self.grid@)[0].len() && 0 <= ty < self.grid@.len()
                    && *tile == self.tiles@[grid_view(self.grid@)[ty as int][tx as int] as int],
                None => !(0 <= tx < grid_view(self.grid@)[0].len() && 0 <= ty < self.grid@.len()),
            },
    {
        let (w, h) = self.size();
        if tx < 0 || ty < 0 || tx >= w || ty >= h {
            return None;
        }
        let y = ty as usize;
        let x = tx as usize;
        assert(grid_view(self.grid@)[y as int] == self.grid@[y as int]@);
        assert(grid_view(self.grid@)[y as int].len() == grid_view(self.grid@)[0].len());
        let tile_id = self.grid[y][x];
        Some(&self.tiles[tile_id])
    }

    /// The cursor may stand on column `tx`, row `ty`.
    pub fn walkable(&self, tx: i32, ty: i32) -> (ok: bool)
        requires
            self.wf(),
        ensures
            ok == (0 <= tx < grid_view(self.grid@)[0].len() && 0 <= ty < self.grid@.len()
                && self.tiles@[grid_view(self.grid@)[ty as int][tx as int] as int].walkable),
    {
        match self.get_tile(tx, ty) {
            Some(t) => t.walkable,
            None => false,
        }
    }

    /// Moves the cursor by (dx, dy) when the tile there is walkable.
    pub fn walk_once(&mut self, dx: i32, dy: i32)
        requires
            old(self).wf(),
        ensures
            final(self).wf(),
            final(self).player == walk_dest(
                grid_view(old(self).grid@),
                old(self).tiles@,
                old(self).player,
                dx as int,
                dy as int,
            ),
            final(self).board == old(self).board,
            final(self).grid == old(self).grid,
            final(self).tiles == old(self).tiles,
            final(self).turn == old(self).turn,
            final(self).q_table == old(self).q_table,
            final(self).player1_becomes == old(self).player1_becomes,
            final(self).player2_becomes == old(self).player2_becomes,
            final(self).game_over == old(self).game_over,
            final(self).step == old(self).step,
            final(self).score == old(self).score,
    {
        let (px, py) = self.player;
        let nx = px as i64 + dx as i64;
        let ny = py as i64 + dy as i64;
        if nx < 0 || ny < 0 || nx > i32::MAX as i64 || ny > i32::MAX as i64 {
            return;
        }
        if self.walkable(nx as i32, ny as i32) {
            self.arrive(nx as i32, ny as i32);
        }
    }

    /// Puts the cursor at (x, y).
    pub fn arrive(&mut self, x: i32, y: i32)
        ensures
            final(self).player == (x, y),
            final(self).board == old(self).board,
            final(self).grid == old(self).grid,
            final(self).tiles == old(self).tiles,
            final(self).turn == old(self).turn,
            final(self).q_table == old(self).q_table,
            final(self).player1_becomes == old(self).player1_becomes,
            final(self).player2_becomes == old(self).player2_becomes,
            final(self).game_over == old(self).game_over,
            final(self).step == old(self).step,
            final(self).score == old(self).score,
    {
        self.player = (x, y);
    }

    /// The side to move plays at the cursor, if that is legal: the move's
    /// reward is added to the score (saturating) and the turn passes.
    /// Returns whether the move was made; if not, nothing changes.
    pub fn play_cursor(&mut self) -> (played: bool)
        requires
            old(self).wf(),
        ensures
            final(self).wf(),
            played == legal(old(self).board@, old(self).turn, old(self).player.1 - 1, old(self).player.0 - 1),
            played ==> final(self).board@ == after_move(
                old(self).board@,
                old(self).turn,
                old(self).player.1 - 1,
                old(self).player.0 - 1,
            ),
            played ==> final(self).score == add_score(
                old(self).score as int,
                reward_for(
                    old(self).player.1 - 1,
                    old(self).player.0 - 1,
                    total_flips(
                        old(self).board@,
                        old(self).turn,
                        old(self).player.1 - 1,
                        old(self).player.0 - 1,
                    ) as int,
                ),
            ),
            played ==> final(self).turn == next_turn(final(self).board@, old(self).turn),
            played ==> final(self).game_over == (old(self).game_over || both_stuck(final(self).board@)),
            !played ==> *final(self) == *old(self),
            final(self).q_table == old(self).q_table,
            final(self).step == old(self).step,
            final(self).player == old(self).player,
    {
        let (x, y) = self.player;
        if !self.check_move(x, y) {
            return false;
        }
        let reward = self.flip_tiles(x, y);
        self.score = match self.score.checked_add(reward) {
            Some(v) => v,
            None => i32::MAX,
        };
        self.change_turn();
        true
    }

    /// The learning opponent's turn for the side to move. With no legal
    /// move the turn just changes hands and `false` comes back. Otherwise
    /// the opponent picks a move epsilon-greedily, trains its table from it
    /// on a scratch board, then plays it and passes the turn.
    pub fn opponent_turn(&mut self) -> (moved_on: bool)
        requires
            old(self).wf(),
        ensures
            final(self).wf(),
            moved_on == has_move(old(self).board@, old(self).turn),
            !moved_on ==> final(self).board == old(self).board && final(self).turn == next_turn(
                old(self).board@,
                old(self).turn,
            ),
            moved_on ==> exists|r: int, c: int|
                legal(old(self).board@, old(self).turn, r, c) && #[trigger] after_move(
                    old(self).board@,
                    old(self).turn,
                    r,
                    c,
                ) == final(self).board@,
            moved_on ==> final(self).turn == next_turn(final(self).board@, old(self).turn),
            old(self).game_over ==> final(self).game_over,
            final(self).step == old(self).step,
            final(self).score == old(self).score,
            final(self).player == old(self).player,
    {
        if self.terminal().len() == 0 {
            self.change_turn();
            return false;
        }
        let m = self.get_greedy_move(false);
        self.update_qtable(m.0, m.1);
        self.flip_tiles(m.0, m.1);
        self.change_turn();
        true
    }

    /// Legal moves of the side to move, in square order, as one-based
    /// (column, row) pairs.
    pub fn terminal(&self) -> (ms: Vec<(i32, i32)>)
        requires
            self.board@.len() == CELLS,
        ensures
            ms@ == legal_moves(self.board@, self.turn),
            ms@.len() == 0 <==> !has_move(self.board@, self.turn),
    {
        proof {
            lemma_legal_moves(self.board@, self.turn);
        }
        moves_of(&self.board, self.turn)
    }
}

impl FrameState {
    /// A fresh frame for `config`, or `None` when the configuration is not
    /// well formed. Each grid marker becomes the position of its first tile.
    pub fn from_config(config: &Othello) -> (f: Option<FrameState>)
        ensures
            f is Some <==> config.wf(),
            f matches Some(fs) ==> {
                &&& fs.wf()
                &&& fs.board@ == config.board@
                &&& fs.turn == config.turn
                &&& fs.player == config.player_start
                &&& !fs.game_over
                &&& fs.step == 0
                &&& fs.score == 0
                &&& fs.q_table.rates == config.q_table.rates
                &&& fs.q_table@ == config.q_table@
                &&& fs.tiles@.len() == config.tiles@.len()
                &&& forall|k: int| 0 <= k < fs.tiles@.len() ==> #[trigger] fs.tiles@[k] == config.tiles@[k].1
                &&& grid_view(fs.grid@).len() == config.grid@.len()
                &&& forall|i: int, j: int|
                    0 <= i < config.grid@.len() && 0 <= j < config.grid@[i]@.len() ==> (
                    #[trigger] grid_view(fs.grid@)[i][j]) < config.tiles@.len() && config.tiles@[grid_view(
                        fs.grid@,
                    )[i][j] as int].0 == config.grid@[i]@[j]
                &&& config.tiles@[fs.player1_becomes as int].0 == config.player1_becomes
                &&& config.tiles@[fs.player2_becomes as int].0 == config.player2_becomes
            },
    {
        if config.board.len() != CELLS || !config.q_table.is_valid() {
            return None;
        }
        let mut tiles: Vec<TileConfig> = Vec::new();
        let mut k: usize = 0;
        while k < config.tiles.len()
            invariant
                k <= config.tiles@.len(),
                tiles@.len() == k,
                forall|e: int| 0 <= e < k ==> #[trigger] tiles@[e] == config.tiles@[e].1,
            decreases config.tiles@.len() - k,
        {
            tiles.push(config.tiles[k].1);
            k = k + 1;
        }
        let black_tile = match tile_index(&config.tiles, config.player1_becomes) {
            Some(i) => i,
            None => return None,
        };
        let white_tile = match tile_index(&config.tiles, config.player2_becomes) {
            Some(i) => i,
            None => return None,
        };
        let h = config.grid.len();
        if h < 9 || h > i32::MAX as usize {
            return None;
        }
        let w = config.grid[0].as_str().unicode_len();
        if w < 9 || w > i32::MAX as usize {
            return None;
        }
        let mut grid: Vec<Vec<usize>> = Vec::new();
        let mut i: usize = 0;
        while i < h
            invariant
                h == config.grid@.len(),
                w == config.grid@[0]@.len(),
                9 <= h <= i32::MAX,
                9 <= w <= i32::MAX,
                i <= h,
                grid@.len() == i,
                tiles@.len() == config.tiles@.len(),
                forall|a: int| 0 <= a < i ==> #[trigger] config.grid@[a]@.len() == w,
                forall|a: int, b: int|
                    0 <= a < i && 0 <= b < config.grid@[a]@.len() ==> has_marker(
                        config.tiles@,
                        #[trigger] config.grid@[a]@[b],
                    ),
                forall|a: int| 0 <= a < i ==> (#[trigger] grid@[a])@.len() == w,
                forall|a: int, b: int|
                    0 <= a < i && 0 <= b < w ==> (#[trigger] grid@[a]@[b]) < config.tiles@.len()
                        && config.tiles@[grid@[a]@[b] as int].0 == config.grid@[a]@[b],
            decreases h - i,
        {
            let row = config.grid[i].as_str();
            if row.unicode_len() != w {
                return None;
            }
            let mut grid_row: Vec<usize> = Vec::new();
            let mut j: usize = 0;
            while j < w
                invariant
                    i < h,
                    h == config.grid@.len(),
                    w == row@.len(),
                    row@ == config.grid@[i as int]@,
                    j <= w,
                    grid_row@.len() == j,
                    forall|b: int| 0 <= b < j ==> has_marker(config.tiles@, #[trigger] row@[b]),
                    forall|b: int|
                        0 <= b < j ==> (#[trigger] grid_row@[b]) < config.tiles@.len()
                            && config.tiles@[grid_row@[b] as int].0 == row@[b],
                decreases w - j,
            {
                let ch = row.get_char(j);
                match tile_index(&config.tiles, ch) {
                    Some(t) => grid_row.push(t),
                    None => {
                        assert(config.grid@[i as int]@[j as int] == ch);
                        return None;
                    },
                }
                j = j + 1;
            }
            grid.push(grid_row);
            i = i + 1;
        }
        let fs = FrameState {
            game_over: false,
            step: 0,
            score: 0,
            player1_becomes: black_tile,
            player2_becomes: white_tile,
            board: config.board.clone(),
            tiles,
            grid,
            turn: config.turn,
            player: config.player_start,
            q_table: config.q_table.duplicate(),
        };
        assert(grid_wf(grid_view(fs.grid@), fs.tiles@.len()));
        Some(fs)
    }
}

} // verus!
