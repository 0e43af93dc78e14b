//! How a game is set up: colours, tiles, the display grid and the opening.
use crate::board::{CELLS, Cell, Player};
use crate::learner::QTable;
use vstd::prelude::*;

verus! {

#[derive(Debug, Clone, Copy, PartialEq, Eq, Structural)]
pub struct Color {
    pub r: u8,
    pub g: u8,
    pub b: u8,
    pub a: u8,
}

impl Color {
    pub fn rgb(r: u8, g: u8, b: u8) -> (c: Color)
        ensures
            c == (Color { r, g, b, a: 255 }),
    {
        Color { r, g, b, a: 255 }
    }

    pub fn black() -> (c: Color)
        ensures
            c == (Color { r: 0, g: 0, b: 0, a: 255 }),
    {
        Color::rgb(0, 0, 0)
    }

    pub fn white() -> (c: Color)
        ensures
            c == (Color { r: 255, g: 255, b: 255, a: 255 }),
    {
        Color::rgb(255, 255, 255)
    }
}

/// How a tile of the display grid looks and behaves.
#[derive(Debug, Clone, Copy, PartialEq, Eq, Structural)]
pub struct TileConfig {
    pub reward: i32,
    pub walkable: bool,
    pub color: Color,
}

impl TileConfig {
    pub fn floor() -> (t: TileConfig)
        ensures
            t == (TileConfig { reward: 0, walkable: true, color: Color { r: 0, g: 255, b: 0, a: 255 } }),
    {
        TileConfig { reward: 0, walkable: true, color: Color::rgb(0, 255, 0) }
    }

    pub fn player1() -> (t: TileConfig)
        ensures
            t == (TileConfig { reward: 1, walkable: true, color: Color { r: 0, g: 0, b: 0, a: 255 } }),
    {
        TileConfig { reward: 1, walkable: true, color: Color::black() }
    }

    pub fn player2() -> (t: TileConfig)
        ensures
            t == (TileConfig {
                reward: 1,
                walkable: true,
                color: Color { r: 255, g: 255, b: 255, a: 255 },
            }),
    {
        TileConfig { reward: 1, walkable: true, color: Color::white() }
    }

    pub fn border() -> (t: TileConfig)
        ensures
            t == (TileConfig {
                reward: 0,
                walkable: false,
                color: Color { r: 211, g: 211, b: 211, a: 255 },
            }),
    {
        TileConfig { reward: 0, walkable: false, color: Color::rgb(211, 211, 211) }
    }

    pub fn dark_floor() -> (t: TileConfig)
        ensures
            t == (TileConfig { reward: 0, walkable: true, color: Color { r: 5, g: 195, b: 25, a: 255 } }),
    {
        TileConfig { reward: 0, walkable: true, color: Color::rgb(5, 195, 25) }
    }

    pub fn color_demo() -> (t: TileConfig)
        ensures
            t == (TileConfig { reward: 0, walkable: true, color: Color { r: 255, g: 0, b: 0, a: 255 } }),
    {
        TileConfig { reward: 0, walkable: true, color: Color::rgb(255, 0, 0) }
    }
}

/// The standard opening: two stones of each side crosswise in the centre.
pub open spec fn opening() -> Seq<Cell> {
    Seq::new(
        64,
        |j: int|
            if j == 27 || j == 36 {
                Cell::Black
            } else if j == 28 || j == 35 {
                Cell::White
            } else {
                Cell::Empty
            },
    )
}

/// The board of the standard opening.
pub fn opening_board() -> (b: Vec<Cell>)
    ensures
        b@ == opening(),
{
    let mut b: Vec<Cell> = Vec::new();
    let mut j: usize = 0;
    while j < 64
        invariant
            j <= 64,
            b@ == opening().subrange(0, j as int),
        decreases 64 - j,
    {
        let v = if j == 27 || j == 36 {
            Cell::Black
        } else if j == 28 || j == 35 {
            Cell::White
        } else {
            Cell::Empty
        };
        b.push(v);
        j = j + 1;
    }
    proof {
        assert(opening().subrange(0, 64) =~= opening());
    }
    b
}

/// Some entry of `tiles` carries marker `ch`.
pub open spec fn has_marker(tiles: Seq<(char, TileConfig)>, ch: char) -> bool {
    exists|i: int| 0 <= i < tiles.len() && #[trigger] tiles[i].0 == ch
}

/// How a game is set up: the opening board, the display grid as rows of
/// tile markers, the tiles the markers stand for, and the learning
/// opponent's table.
#[derive(Debug)]
pub struct Othello {
    pub player_color: Color,
    pub board: Vec<Cell>,
    pub grid: Vec<String>,
    pub tiles: Vec<(char, TileConfig)>,
    pub turn: Player,
    pub player1_becomes: char,
    pub player2_becomes: char,
    pub player_start: (i32, i32),
    pub diagonal_support: bool,
    pub q_table: QTable,
}

impl Othello {
    /// The grid is at least 9 by 9 markers, every row as long as the first,
    /// and every marker used names a tile.
    pub open spec fn wf(&self) -> bool {
        &&& self.board@.len() == CELLS
        &&& self.q_table.wf()
        &&& 9 <= self.grid@.len() <= i32::MAX
        &&& 9 <= self.grid@[0]@.len() <= i32::MAX
        &&& forall|i: int| 0 <= i < self.grid@.len() ==> #[trigger] self.grid@[i]@.len() == self.grid@[0]@.len()
        &&& forall|i: int, j: int|
            0 <= i < self.grid@.len() && 0 <= j < self.grid@[i]@.len() ==> has_marker(
                self.tiles@,
                #[trigger] self.grid@[i]@[j],
            )
        &&& has_marker(self.tiles@, self.player1_becomes)
        &&& has_marker(self.tiles@, self.player2_becomes)
    }
}

/// Position of the first entry of `tiles` marked `ch`.
pub fn tile_index(tiles: &Vec<(char, TileConfig)>, ch: char) -> (r: Option<usize>)
    ensures
        match r {
            Some(i) => i < tiles@.len() && tiles@[i as int].0 == ch,
            None => !has_marker(tiles@, ch),
        },
{
    let mut i: usize = 0;
    while i < tiles.len()
        invariant
            i <= tiles@.len(),
            forall|k: int| 0 <= k < i ==> tiles@[k].0 != ch,
        decreases tiles@.len() - i,
    {
        if tiles[i].0 == ch {
            return Some(i);
        }
        i = i + 1;
    }
    None
}

/// The text of each grid row.
pub open spec fn rows_view(g: Seq<String>) -> Seq<Seq<char>> {
    g.map_values(|row: String| row@)
}

/// A copy of the grid rows.
pub fn copy_rows(g: &Vec<String>) -> (r: Vec<String>)
    ensures
        rows_view(r@) == rows_view(g@),
{
    let mut r: Vec<String> = Vec::new();
    let mut i: usize = 0;
    while i < g.len()
        invariant
            i <= g@.len(),
            r@.len() == i,
            forall|k: int| 0 <= k < i ==> (#[trigger] r@[k])@ == g@[k]@,
        decreases g@.len() - i,
    {
        r.push(String::from_str(g[i].as_str()));
        i = i + 1;
    }
    assert(rows_view(r@) =~= rows_view(g@));
    r
}

/// A copy of the tile list.
pub fn copy_tiles(t: &Vec<(char, TileConfig)>) -> (r: Vec<(char, TileConfig)>)
    ensures
        r@ == t@,
{
    let mut r: Vec<(char, TileConfig)> = Vec::new();
    let mut i: usize = 0;
    while i < t.len()
        invariant
            i <= t@.len(),
            r@ == t@.subrange(0, i as int),
        decreases t@.len() - i,
    {
        r.push(t[i]);
        i = i + 1;
    }
    assert(t@.subrange(0, t@.len() as int) =~= t@);
    r
}

/// Two configurations hold the same contents, field by field.
pub open spec fn same_config(a: Othello, b: Othello) -> bool {
    &&& a.player_color == b.player_color
    &&& a.board@ == b.board@
    &&& rows_view(a.grid@) == rows_view(b.grid@)
    &&& a.tiles@ == b.tiles@
    &&& a.turn == b.turn
    &&& a.player1_becomes == b.player1_becomes
    &&& a.player2_becomes == b.player2_becomes
    &&& a.player_start == b.player_start
    &&& a.diagonal_support == b.diagonal_support
    &&& a.q_table@ == b.q_table@
    &&& a.q_table.rates == b.q_table.rates
}

impl Clone for Othello {
    fn clone(&self) -> (r: Othello)
        ensures
            same_config(r, *self),
    {
        Othello {
            player_color: self.player_color,
            board: self.board.clone(),
            grid: copy_rows(&self.grid),
            tiles: copy_tiles(&self.tiles),
            turn: self.turn,
            player1_becomes: self.player1_becomes,
            player2_becomes: self.player2_becomes,
            player_start: self.player_start,
            diagonal_support: self.diagonal_support,
            q_table: self.q_table.duplicate(),
        }
    }
}

impl Default for Othello {
    /// The standard opening, Black to move, on a 10 by 10 grid with a
    /// border, the cursor in the top-left square and an empty table.
    fn default() -> (o: Othello)
        ensures
            o.board@ == opening(),
            o.turn == Player::Black,
            o.player1_becomes == '1',
            o.player2_becomes == '2',
            o.player_start == (1i32, 1i32),
            !o.diagonal_support,
            rows_view(o.grid@) == seq![
                "3333333333"@,
                "3040404043"@,
                "3404040403"@,
                "3040404043"@,
                "3404120403"@,
                "3040214043"@,
                "3404040403"@,
                "3040404043"@,
                "3404040403"@,
                "3333333333"@,
            ],
            o.tiles@ == seq![
                ('0', TileConfig { reward: 0, walkable: true, color: Color { r: 0, g: 255, b: 0, a: 255 } }),
                ('1', TileConfig { reward: 1, walkable: true, color: Color { r: 0, g: 0, b: 0, a: 255 } }),
                (
                    '2',
                    TileConfig {
                        reward: 1,
                        walkable: true,
                        color: Color { r: 255, g: 255, b: 255, a: 255 },
                    },
                ),
                (
                    '3',
                    TileConfig {
                        reward: 0,
                        walkable: false,
                        color: Color { r: 211, g: 211, b: 211, a: 255 },
                    },
                ),
                ('4', TileConfig { reward: 0, walkable: true, color: Color { r: 5, g: 195, b: 25, a: 255 } }),
                ('5', TileConfig { reward: 0, walkable: true, color: Color { r: 255, g: 0, b: 0, a: 255 } }),
            ],
            o.player_color == (Color { r: 255, g: 0, b: 0, a: 255 }),
            o.grid@.len() == 10,
            o.q_table@ == Map::<u128, u64>::empty(),
            o.wf(),
    {
        let mut tiles: Vec<(char, TileConfig)> = Vec::new();
        tiles.push(('0', TileConfig::floor()));
        tiles.push(('1', TileConfig::player1()));
        tiles.push(('2', TileConfig::player2()));
        tiles.push(('3', TileConfig::border()));
        tiles.push(('4', TileConfig::dark_floor()));
        tiles.push(('5', TileConfig::color_demo()));
        let mut grid: Vec<String> = Vec::new();
        proof {
            reveal_strlit("3333333333");
            reveal_strlit("3040404043");
            reveal_strlit("3404040403");
            reveal_strlit("3404120403");
            reveal_strlit("3040214043");
        }
        grid.push(String::from_str("3333333333"));
        grid.push(String::from_str("3040404043"));
        grid.push(String::from_str("3404040403"));
        grid.push(String::from_str("3040404043"));
        grid.push(String::from_str("3404120403"));
        grid.push(String::from_str("3040214043"));
        grid.push(String::from_str("3404040403"));
        grid.push(String::from_str("3040404043"));
        grid.push(String::from_str("3404040403"));
        proof {
            reveal_strlit("3333333333");
            reveal_strlit("3040404043");
            reveal_strlit("3404040403");
            reveal_strlit("3404120403");
            reveal_strlit("3040214043");
        }
        grid.push(String::from_str("3333333333"));
        proof {
            assert(tiles@[0].0 == '0' && tiles@[1].0 == '1' && tiles@[2].0 == '2');
            assert(tiles@[3].0 == '3' && tiles@[4].0 == '4' && tiles@[5].0 == '5');
            assert forall|i: int, j: int|
                0 <= i < grid@.len() && 0 <= j < grid@[i]@.len() implies has_marker(
                tiles@,
                #[trigger] grid@[i]@[j],
            ) by {
                let ch = grid@[i]@[j];
                assert(ch == '0' || ch == '1' || ch == '2' || ch == '3' || ch == '4' || ch == '5');
                if ch == '0' {
                    assert(tiles@[0].0 == ch);
                } else if ch == '1' {
                    assert(tiles@[1].0 == ch);
                } else if ch == '2' {
                    assert(tiles@[2].0 == ch);
                } else if ch == '3' {
                    assert(tiles@[3].0 == ch);
                } else if ch == '4' {
                    assert(tiles@[4].0 == ch);
                } else {
                    assert(tiles@[5].0 == ch);
                }
            }
        }
        assert(rows_view(grid@) =~= seq![
            "3333333333"@,
            "3040404043"@,
            "3404040403"@,
            "3040404043"@,
            "3404120403"@,
            "3040214043"@,
            "3404040403"@,
            "3040404043"@,
            "3404040403"@,
            "3333333333"@,
        ]);
        Othello {
            player_color: Color::rgb(255, 0, 0),
            board: opening_board(),
            grid,
            tiles,
            turn: Player::Black,
            player1_becomes: '1',
            player2_becomes: '2',
            player_start: (1, 1),
            diagonal_support: false,
            q_table: QTable::new(),
        }
    }
}

} // verus!
