//! A game session as the host sees it: buttons in, drawing and queries out.
use crate::board::{Player, after_move, has_move, legal, reward_for, total_flips};
use crate::config::{Color, Othello, TileConfig, same_config};
use crate::frame::{FrameState, add_score, same_frame, both_stuck, grid_view, next_turn, walk_dest};
use vstd::prelude::*;

verus! {

/// Buttons held during one frame.
#[derive(Debug, Clone, Copy, PartialEq, Eq, Structural, Default)]
pub struct Input {
    pub left: bool,
    pub right: bool,
    pub up: bool,
    pub down: bool,
    pub button1: bool,
    pub button2: bool,
}

impl Input {
    pub open spec fn none_held(&self) -> bool {
        !(self.left || self.right || self.up || self.down || self.button1 || self.button2)
    }

    /// No button is held.
    pub fn is_empty(&self) -> (r: bool)
        ensures
            r == self.none_held(),
    {
        !(self.left || self.right || self.up || self.down || self.button1 || self.button2)
    }
}

/// Column and row step that the buttons ask of the cursor; none when no
/// direction is held.
pub open spec fn held_delta(b: Input) -> (int, int) {
    if b.up {
        (0, -1)
    } else if b.down {
        (0, 1)
    } else if b.left {
        (-1, 0)
    } else if b.right {
        (1, 0)
    } else {
        (0, 0)
    }
}

/// A cursor movement.
#[derive(Debug, Clone, Copy, PartialEq, Eq, Structural)]
pub enum Direction {
    Up,
    Down,
    Left,
    Right,
}

impl Direction {
    /// The movement the buttons ask for; up, down, left and right are
    /// looked at in that order.
    pub fn from_input(buttons: Input) -> (d: Option<Direction>)
        ensures
            d == (if buttons.up {
                Some(Direction::Up)
            } else if buttons.down {
                Some(Direction::Down)
            } else if buttons.left {
                Some(Direction::Left)
            } else if buttons.right {
                Some(Direction::Right)
            } else {
                None
            }),
    {
        if buttons.up {
            Some(Direction::Up)
        } else if buttons.down {
            Some(Direction::Down)
        } else if buttons.left {
            Some(Direction::Left)
        } else if buttons.right {
            Some(Direction::Right)
        } else {
            None
        }
    }

    /// Column and row offsets; rows grow downwards.
    pub fn delta(&self) -> (r: (i32, i32))
        ensures
            r == (match *self {
                Direction::Up => (0i32, -1i32),
                Direction::Down => (0i32, 1i32),
                Direction::Left => (-1i32, 0i32),
                Direction::Right => (1i32, 0i32),
            }),
    {
        match *self {
            Direction::Up => (0, -1),
            Direction::Down => (0, 1),
            Direction::Left => (-1, 0),
            Direction::Right => (1, 0),
        }
    }
}

/// A discrete action of the host's controller.
#[derive(Debug, Clone, Copy, PartialEq, Eq, Structural, PartialOrd, Ord, Hash)]
pub enum AleAction {
    NOOP,
    FIRE,
    UP,
    RIGHT,
    LEFT,
    DOWN,
}

/// Something to draw.
#[derive(Debug, Clone, Copy, PartialEq, Eq, Structural)]
pub enum Drawable {
    Clear(Color),
    Rect { color: Color, x: i32, y: i32, w: i32, h: i32 },
}

/// One unit rectangle per tile: all of the rows above `y`, then those of
/// row `y` left of column `x`, in reading order.
pub open spec fn tile_rects(g: Seq<Seq<usize>>, tiles: Seq<TileConfig>, w: int, y: int, x: int) -> Seq<
    Drawable,
>
    decreases y, x,
{
    if y < 0 || (y == 0 && x <= 0) {
        seq![]
    } else if x <= 0 {
        tile_rects(g, tiles, w, y - 1, w)
    } else {
        tile_rects(g, tiles, w, y, x - 1).push(
            Drawable::Rect {
                color: tiles[g[y][x - 1] as int].color,
                x: (x - 1) as i32,
                y: y as i32,
                w: 1,
                h: 1,
            },
        )
    }
}

/// serde_json's error type, carried opaquely.
#[verifier::external_type_specification]
#[verifier::external_body]
pub struct ExJsonError(serde_json::Error);

/// serde_json's value type, carried opaquely.
#[verifier::external_type_specification]
#[verifier::external_body]
pub struct ExJsonValue(serde_json::Value);

/// A host-side query that failed.
#[derive(Debug)]
pub enum QueryError {
    NoSuchQuery,
    JsonError(serde_json::Error),
}

/// Everything of one game: its configuration and its current frame.
#[derive(Debug)]
pub struct State {
    pub config: Othello,
    pub frame: FrameState,
}

impl Clone for State {
    fn clone(&self) -> (r: State)
        ensures
            same_config(r.config, self.config),
            same_frame(r.frame, self.frame),
    {
        State { config: self.config.clone(), frame: self.frame.clone() }
    }
}

impl Othello {
    /// A new game for this configuration, or `None` when it is not well formed.
    pub fn new_game(&self) -> (s: Option<State>)
        ensures
            s is Some <==> self.wf(),
            s matches Some(st) ==> st.frame.wf() && st.frame.board@ == self.board@ && st.frame.turn
                == self.turn && st.frame.player == self.player_start && !st.frame.game_over
                && st.frame.step == 0 && st.frame.score == 0 && st.frame.q_table@ == self.q_table@
                && st.frame.q_table.rates == self.q_table.rates && same_config(st.config, *self),
    {
        match FrameState::from_config(self) {
            Some(frame) => Some(State { frame, config: self.clone() }),
            None => None,
        }
    }

    /// The controller actions a player may use, in ascending order.
    pub fn legal_action_set(&self) -> (v: Vec<AleAction>)
        ensures
            v@ == seq![
                AleAction::NOOP,
                AleAction::FIRE,
                AleAction::UP,
                AleAction::RIGHT,
                AleAction::LEFT,
                AleAction::DOWN,
            ],
    {
        let mut v: Vec<AleAction> = Vec::new();
        v.push(AleAction::NOOP);
        v.push(AleAction::FIRE);
        v.push(AleAction::UP);
        v.push(AleAction::RIGHT);
        v.push(AleAction::LEFT);
        v.push(AleAction::DOWN);
        v
    }

    /// Width and height of the display grid.
    pub fn game_size(&self) -> (r: (i32, i32))
        requires
            self.wf(),
        ensures
            r == (self.grid@[0]@.len() as i32, self.grid@.len() as i32),
    {
        let height = self.grid.len() as i32;
        let width = self.grid[0].as_str().unicode_len() as i32;
        (width, height)
    }
}

/// A list of integers as compact JSON: an opening bracket, the numbers in
/// decimal separated by commas, a closing bracket.
pub open spec fn json_array(v: Seq<i128>) -> Seq<char> {
    seq!['['] + joined(v) + seq![']']
}

/// One decimal digit.
pub open spec fn digit_char(d: int) -> char {
    if d == 0 {
        '0'
    } else if d == 1 {
        '1'
    } else if d == 2 {
        '2'
    } else if d == 3 {
        '3'
    } else if d == 4 {
        '4'
    } else if d == 5 {
        '5'
    } else if d == 6 {
        '6'
    } else if d == 7 {
        '7'
    } else if d == 8 {
        '8'
    } else {
        '9'
    }
}

/// The decimal digits of `n`, without leading zeros.
pub open spec fn digits(n: nat) -> Seq<char>
    decreases n,
{
    if n < 10 {
        seq![digit_char(n as int)]
    } else {
        digits(n / 10) + seq![digit_char((n % 10) as int)]
    }
}

/// `n` in decimal, with a leading minus sign when negative.
pub open spec fn decimal(n: int) -> Seq<char> {
    if n < 0 {
        seq!['-'] + digits((-n) as nat)
    } else {
        digits(n as nat)
    }
}

/// The integers of `v` in decimal, separated by commas.
pub open spec fn joined(v: Seq<i128>) -> Seq<char>
    decreases v.len(),
{
    if v.len() == 0 {
        seq![]
    } else if v.len() == 1 {
        decimal(v[0] as int)
    } else {
        joined(v.drop_last()) + seq![','] + decimal(v.last() as int)
    }
}

/// Relies on serde_json::to_string to write a list of integers as compact
/// JSON (integers through itoa, into a byte buffer that cannot fail).
#[verifier::external_body]
fn ints_json(v: &Vec<i128>) -> (r: Result<String, serde_json::Error>)
    ensures
        r is Ok,
        r matches Ok(s) ==> s@ == json_array(v@),
{
    serde_json::to_string(v)
}

/// Whether two strings hold the same characters.
pub fn same_text(a: &str, b: &str) -> (r: bool)
    ensures
        r == (a@ == b@),
{
    let n = a.unicode_len();
    if n != b.unicode_len() {
        return false;
    }
    let mut i: usize = 0;
    while i < n
        invariant
            n == a@.len(),
            n == b@.len(),
            i <= n,
            forall|k: int| 0 <= k < i ==> a@[k] == b@[k],
        decreases n - i,
    {
        if a.get_char(i) != b.get_char(i) {
            return false;
        }
        i = i + 1;
    }
    assert(a@ =~= b@);
    true
}

/// Answers a query on the state: `xy` gives the cursor as JSON, `xyt` the
/// cursor and the step counter; anything else is no such query.
pub fn answer_query(query: &str, x: i32, y: i32, step: usize) -> (r: Result<String, QueryError>)
    ensures
        query@ == "xy"@ ==> (r matches Ok(s) && s@ == json_array(seq![x as i128, y as i128])),
        query@ == "xyt"@ ==> (r matches Ok(s) && s@ == json_array(
            seq![x as i128, y as i128, step as i128],
        )),
        query@ != "xy"@ && query@ != "xyt"@ ==> r matches Err(QueryError::NoSuchQuery),
{
    proof {
        reveal_strlit("xy");
        reveal_strlit("xyt");
        assert("xy"@.len() != "xyt"@.len());
    }
    if same_text(query, "xy") {
        let mut v: Vec<i128> = Vec::new();
        v.push(x as i128);
        v.push(y as i128);
        assert(v@ =~= seq![x as i128, y as i128]);
        match ints_json(&v) {
            Ok(s) => Ok(s),
            Err(e) => Err(QueryError::JsonError(e)),
        }
    } else if same_text(query, "xyt") {
        let mut v: Vec<i128> = Vec::new();
        v.push(x as i128);
        v.push(y as i128);
        v.push(step as i128);
        assert(v@ =~= seq![x as i128, y as i128, step as i128]);
        match ints_json(&v) {
            Ok(s) => Ok(s),
            Err(e) => Err(QueryError::JsonError(e)),
        }
    } else {
        Err(QueryError::NoSuchQuery)
    }
}

impl State {
    /// One life while the game runs, none once it is over.
    pub fn lives(&self) -> (r: i32)
        ensures
            r == (if self.frame.game_over {
                0i32
            } else {
                1i32
            }),
    {
        if self.frame.game_over {
            0
        } else {
            1
        }
    }

    pub fn score(&self) -> (r: i32)
        ensures
            r == self.frame.score,
    {
        self.frame.score
    }

    /// There is a single level.
    pub fn level(&self) -> (r: i32)
        ensures
            r == 0,
    {
        0
    }

    /// A copy of the state to keep.
    pub fn copy(&self) -> (r: State)
        ensures
            same_config(r.config, self.config),
            same_frame(r.frame, self.frame),
    {
        self.clone()
    }

    /// Answers a host query; the arguments are not used.
    pub fn query_json(&self, query: &str, _args: &serde_json::Value) -> (r: Result<String, QueryError>)
        ensures
            query@ == "xy"@ ==> (r matches Ok(s) && s@ == json_array(
                seq![self.frame.player.0 as i128, self.frame.player.1 as i128],
            )),
            query@ == "xyt"@ ==> (r matches Ok(s) && s@ == json_array(
                seq![
                    self.frame.player.0 as i128,
                    self.frame.player.1 as i128,
                    self.frame.step as i128,
                ],
            )),
            query@ != "xy"@ && query@ != "xyt"@ ==> r matches Err(QueryError::NoSuchQuery),
    {
        answer_query(query, self.frame.player.0, self.frame.player.1, self.frame.step)
    }

    /// Advances one frame. Nothing happens without a button, nor once the
    /// game is over. Otherwise the step counter goes up; when White is to
    /// move the learning opponent takes its turn; the first button then
    /// plays the side to move at the cursor; and a direction button moves
    /// the cursor. A turn with no legal move, or a cursor move that is not
    /// legal, ends the frame.
    #[verifier::rlimit(40)]
    pub fn update_mut(&mut self, buttons: Input)
        requires
            old(self).frame.wf(),
        ensures
            final(self).frame.wf(),
            buttons.none_held() || old(self).frame.game_over ==> *final(self) == *old(self),
            final(self).frame.score >= old(self).frame.score,
            !buttons.none_held() && !old(self).frame.game_over ==> final(self).frame.step == (if old(
                self,
            ).frame.step < usize::MAX {
                old(self).frame.step + 1
            } else {
                old(self).frame.step as int
            }),
            ({
                let o = old(self).frame;
                let f = final(self).frame;
                let (px, py) = o.player;
                let d = held_delta(buttons);
                let dest = walk_dest(grid_view(f.grid@), f.tiles@, o.player, d.0, d.1);
                let here = legal(o.board@, Player::Black, py - 1, px - 1);
                o.turn == Player::Black && !buttons.none_held() && !o.game_over ==> {
                    &&& buttons.button1 && here ==> {
                        &&& f.board@ == after_move(o.board@, Player::Black, py - 1, px - 1)
                        &&& f.score == add_score(
                            o.score as int,
                            reward_for(
                                py - 1,
                                px - 1,
                                total_flips(o.board@, Player::Black, py - 1, px - 1) as int,
                            ),
                        )
                        &&& f.turn == next_turn(f.board@, Player::Black)
                        &&& f.game_over == both_stuck(f.board@)
                        &&& f.player == dest
                    }
                    &&& buttons.button1 && !here ==> f.board == o.board && f.turn == o.turn && f.score
                        == o.score && f.game_over == o.game_over && f.q_table == o.q_table && f.grid
                        == o.grid && f.player == o.player
                    &&& !buttons.button1 ==> f.board == o.board && f.turn == o.turn && f.score
                        == o.score && f.game_over == o.game_over && f.q_table == o.q_table && f.grid
                        == o.grid && f.player == dest
                }
            }),
            ({
                let o = old(self).frame;
                let f = final(self).frame;
                let d = held_delta(buttons);
                o.turn == Player::White && !buttons.none_held() && !o.game_over && !buttons.button1
                    ==> if has_move(o.board@, Player::White) {
                    &&& exists|r: int, c: int|
                        legal(o.board@, Player::White, r, c) && #[trigger] after_move(
                            o.board@,
                            Player::White,
                            r,
                            c,
                        ) == f.board@
                    &&& f.turn == next_turn(f.board@, Player::White)
                    &&& f.score == o.score
                    &&& f.player == walk_dest(grid_view(f.grid@), f.tiles@, o.player, d.0, d.1)
                } else {
                    &&& f.board == o.board
                    &&& f.turn == next_turn(o.board@, Player::White)
                    &&& f.score == o.score
                    &&& f.player == o.player
                }
            }),
    {
        if buttons.is_empty() || self.frame.game_over {
            return;
        }
        if self.frame.step < usize::MAX {
            self.frame.step = self.frame.step + 1;
        }
        if self.frame.turn == Player::White {
            if !self.frame.opponent_turn() {
                return;
            }
        }
        if buttons.button1 {
            if !self.frame.play_cursor() {
                return;
            }
        }
        match Direction::from_input(buttons) {
            Some(dir) => {
                let (dx, dy) = dir.delta();
                self.frame.walk_once(dx, dy);
            },
            None => {},
        }
    }

    /// The picture of the frame: a black background, one unit rectangle per
    /// grid tile in reading order, and the cursor on top.
    pub fn draw(&self) -> (out: Vec<Drawable>)
        requires
            self.frame.wf(),
        ensures
            out@ == seq![Drawable::Clear(Color { r: 0, g: 0, b: 0, a: 255 })] + tile_rects(
                grid_view(self.frame.grid@),
                self.frame.tiles@,
                grid_view(self.frame.grid@)[0].len() as int,
                self.frame.grid@.len() as int,
                0,
            ) + seq![
                Drawable::Rect {
                    color: self.config.player_color,
                    x: self.frame.player.0,
                    y: self.frame.player.1,
                    w: 1,
                    h: 1,
                },
            ],
    {
        let ghost g = grid_view(self.frame.grid@);
        let ghost tiles = self.frame.tiles@;
        let mut out: Vec<Drawable> = Vec::new();
        out.push(Drawable::Clear(Color::black()));
        let (width, height) = self.frame.size();
        let ghost w = width as int;
        let mut y: i32 = 0;
        while y < height
            invariant
                self.frame.wf(),
                g == grid_view(self.frame.grid@),
                tiles == self.frame.tiles@,
                width == g[0].len(),
                height == g.len(),
                w == width,
                0 <= y <= height,
                out@ == seq![Drawable::Clear(Color { r: 0, g: 0, b: 0, a: 255 })] + tile_rects(
                    g,
                    tiles,
                    w,
                    y as int,
                    0,
                ),
            decreases height - y,
        {
            let mut x: i32 = 0;
            while x < width
                invariant
                    self.frame.wf(),
                    g == grid_view(self.frame.grid@),
                    tiles == self.frame.tiles@,
                    width == g[0].len(),
                    height == g.len(),
                    w == width,
                    0 <= y < height,
                    0 <= x <= width,
                    out@ == seq![Drawable::Clear(Color { r: 0, g: 0, b: 0, a: 255 })] + tile_rects(
                        g,
                        tiles,
                        w,
                        y as int,
                        x as int,
                    ),
                decreases width - x,
            {
                assert(g[y as int] == self.frame.grid@[y as int]@);
                assert(g[y as int].len() == g[0].len());
                let id = self.frame.grid[y as usize][x as usize];
                let color = self.frame.tiles[id].color;
                out.push(Drawable::Rect { color, x, y, w: 1, h: 1 });
                proof {
                    assert(out@ =~= seq![Drawable::Clear(Color { r: 0, g: 0, b: 0, a: 255 })] + tile_rects(
                        g,
                        tiles,
                        w,
                        y as int,
                        x as int + 1,
                    ));
                }
                x = x + 1;
            }
            proof {
                assert(tile_rects(g, tiles, w, y as int + 1, 0) == tile_rects(g, tiles, w, y as int, w));
            }
            y = y + 1;
        }
        out.push(
            Drawable::Rect {
                color: self.config.player_color,
                x: self.frame.player.0,
                y: self.frame.player.1,
                w: 1,
                h: 1,
            },
        );
        out
    }
}

} // verus!
