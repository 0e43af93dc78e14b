//! The 8x8 board: squares, directions, the capture rule and its proofs.
use vstd::prelude::*;

verus! {

/// The side to move.
#[derive(Debug, Clone, Copy, PartialEq, Eq, Structural)]
pub enum Player {
    Black,
    White,
}

/// What one square holds.
#[derive(Debug, Clone, Copy, PartialEq, Eq, Structural)]
pub enum Cell {
    Empty,
    Black,
    White,
}

/// Number of squares on the board.
pub const CELLS: usize = 64;

pub open spec fn opponent(p: Player) -> Player {
    match p {
        Player::Black => Player::White,
        Player::White => Player::Black,
    }
}

/// The stone that `p` places.
pub open spec fn stone(p: Player) -> Cell {
    match p {
        Player::Black => Cell::Black,
        Player::White => Cell::White,
    }
}

impl Player {
    pub fn other(self) -> (r: Player)
        ensures
            r == opponent(self),
    {
        match self {
            Player::Black => Player::White,
            Player::White => Player::Black,
        }
    }

    pub fn stone(self) -> (r: Cell)
        ensures
            r == stone(self),
    {
        match self {
            Player::Black => Cell::Black,
            Player::White => Cell::White,
        }
    }
}

/// Zero-based row and column both in range.
pub open spec fn on_board(r: int, c: int) -> bool {
    0 <= r < 8 && 0 <= c < 8
}

pub open spec fn index_of(r: int, c: int) -> int {
    r * 8 + c
}

pub open spec fn cell_at(b: Seq<Cell>, r: int, c: int) -> Cell {
    b[index_of(r, c)]
}

/// Row offset of compass direction `d` (0..8).
pub open spec fn dir_row(d: int) -> int {
    if d <= 2 {
        -1
    } else if d <= 4 {
        0
    } else {
        1
    }
}

/// Column offset of compass direction `d` (0..8).
pub open spec fn dir_col(d: int) -> int {
    if d == 0 || d == 3 || d == 5 {
        -1
    } else if d == 1 || d == 6 {
        0
    } else {
        1
    }
}

/// `x` moved `i` squares along an axis whose offset is `dx`.
pub open spec fn step(x: int, dx: int, i: int) -> int {
    if dx > 0 {
        x + i
    } else if dx < 0 {
        x - i
    } else {
        x
    }
}

/// Row `i` squares away from `r` along direction `d`.
pub open spec fn ray_row(r: int, d: int, i: int) -> int {
    step(r, dir_row(d), i)
}

/// Column `i` squares away from `c` along direction `d`.
pub open spec fn ray_col(c: int, d: int, i: int) -> int {
    step(c, dir_col(d), i)
}

/// Length of the unbroken run of opponent stones that starts `i` squares
/// from (r, c) in direction `d`.
pub open spec fn run_len(b: Seq<Cell>, p: Player, r: int, c: int, d: int, i: int) -> nat
    decreases 8 - i,
{
    if 1 <= i < 8 && on_board(ray_row(r, d, i), ray_col(c, d, i)) && cell_at(
        b,
        ray_row(r, d, i),
        ray_col(c, d, i),
    ) == stone(opponent(p)) {
        1 + run_len(b, p, r, c, d, i + 1)
    } else {
        0
    }
}

/// Stones that `p` captures in direction `d` by playing at (r, c): the run of
/// opponent stones next to the square, provided that `p`'s own stone closes
/// it before the edge; zero otherwise.
pub open spec fn captured(b: Seq<Cell>, p: Player, r: int, c: int, d: int) -> nat {
    let k = run_len(b, p, r, c, d, 1) as int;
    if k > 0 && on_board(ray_row(r, d, k + 1), ray_col(c, d, k + 1)) && cell_at(
        b,
        ray_row(r, d, k + 1),
        ray_col(c, d, k + 1),
    ) == stone(p) {
        k as nat
    } else {
        0
    }
}

/// Stones captured over the first `n` directions.
pub open spec fn flips_upto(b: Seq<Cell>, p: Player, r: int, c: int, n: int) -> nat
    decreases n,
{
    if n <= 0 {
        0
    } else {
        flips_upto(b, p, r, c, n - 1) + captured(b, p, r, c, n - 1)
    }
}

/// Stones captured over all eight directions.
pub open spec fn total_flips(b: Seq<Cell>, p: Player, r: int, c: int) -> nat {
    flips_upto(b, p, r, c, 8)
}

/// A move is legal on an empty square of the board that captures at least
/// one stone.
pub open spec fn legal(b: Seq<Cell>, p: Player, r: int, c: int) -> bool {
    on_board(r, c) && cell_at(b, r, c) == Cell::Empty && total_flips(b, p, r, c) > 0
}

/// Distance from (r, c) to (r2, c2) measured along direction `d`.
pub open spec fn ray_pos(r: int, c: int, d: int, r2: int, c2: int) -> int {
    if dir_row(d) != 0 {
        if r2 >= r {
            r2 - r
        } else {
            r - r2
        }
    } else {
        if c2 >= c {
            c2 - c
        } else {
            c - c2
        }
    }
}

/// (r2, c2) is among the first `i - 1` squares of the captured run in direction `d`.
pub open spec fn flipped_before(
    b: Seq<Cell>,
    p: Player,
    r: int,
    c: int,
    d: int,
    i: int,
    r2: int,
    c2: int,
) -> bool {
    let t = ray_pos(r, c, d, r2, c2);
    1 <= t < i && t <= captured(b, p, r, c, d) && r2 == ray_row(r, d, t) && c2 == ray_col(c, d, t)
}

/// (r2, c2) lies in the run captured in direction `d`.
pub open spec fn flipped_in(b: Seq<Cell>, p: Player, r: int, c: int, d: int, r2: int, c2: int) -> bool {
    flipped_before(b, p, r, c, d, 9, r2, c2)
}

/// (r2, c2) lies in a run captured in one of the first `n` directions.
pub open spec fn flipped_upto(
    b: Seq<Cell>,
    p: Player,
    r: int,
    c: int,
    n: int,
    r2: int,
    c2: int,
) -> bool
    decreases n,
{
    if n <= 0 {
        false
    } else {
        flipped_upto(b, p, r, c, n - 1, r2, c2) || flipped_in(b, p, r, c, n - 1, r2, c2)
    }
}

/// (r2, c2) changes hands when `p` plays at (r, c).
pub open spec fn flipped(b: Seq<Cell>, p: Player, r: int, c: int, r2: int, c2: int) -> bool {
    flipped_upto(b, p, r, c, 8, r2, c2)
}

/// The board after `p` plays at (r, c): the new stone, and every captured
/// stone turned over.
pub open spec fn after_move(b: Seq<Cell>, p: Player, r: int, c: int) -> Seq<Cell> {
    Seq::new(
        64,
        |j: int|
            if j == index_of(r, c) || flipped(b, p, r, c, j / 8, j % 8) {
                stone(p)
            } else {
                b[j]
            },
    )
}

/// Offsets (row, column) of compass direction `d`.
pub fn direction(d: usize) -> (r: (i32, i32))
    requires
        d < 8,
    ensures
        r.0 == dir_row(d as int),
        r.1 == dir_col(d as int),
{
    if d <= 2 {
        (-1, d as i32 - 1)
    } else if d == 3 {
        (0, -1)
    } else if d == 4 {
        (0, 1)
    } else {
        (1, d as i32 - 6)
    }
}

/// The cell at (r, c).
pub fn cell(b: &Vec<Cell>, r: i32, c: i32) -> (v: Cell)
    requires
        b@.len() == 64,
        on_board(r as int, c as int),
    ensures
        v == cell_at(b@, r as int, c as int),
{
    b[(r * 8 + c) as usize]
}

proof fn lemma_ray_step(x: int, dx: int, i: int)
    requires
        -1 <= dx <= 1,
    ensures
        step(x, dx, i) + dx == step(x, dx, i + 1),
{
}

/// Every square of a run lies on the board and holds an opponent stone.
pub proof fn lemma_run_cells(b: Seq<Cell>, p: Player, r: int, c: int, d: int, i: int, t: int)
    requires
        1 <= i <= t < i + run_len(b, p, r, c, d, i),
    ensures
        on_board(ray_row(r, d, t), ray_col(c, d, t)),
        cell_at(b, ray_row(r, d, t), ray_col(c, d, t)) == stone(opponent(p)),
    decreases t - i,
{
    if t > i {
        lemma_run_cells(b, p, r, c, d, i + 1, t);
    }
}

/// Number of stones `p` captures in direction `d` by playing at (r, c).
pub fn captured_count(b: &Vec<Cell>, p: Player, r: i32, c: i32, d: usize) -> (k: usize)
    requires
        b@.len() == 64,
        on_board(r as int, c as int),
        d < 8,
    ensures
        k == captured(b@, p, r as int, c as int, d as int),
        k < 8,
{
    let (dr, dc) = direction(d);
    let foe = p.other().stone();
    let mut i: i32 = 1;
    let mut cr: i32 = r + dr;
    let mut cc: i32 = c + dc;
    while i < 8 && 0 <= cr && cr < 8 && 0 <= cc && cc < 8 && cell(b, cr, cc) == foe
        invariant
            b@.len() == 64,
            on_board(r as int, c as int),
            d < 8,
            dr == dir_row(d as int),
            dc == dir_col(d as int),
            foe == stone(opponent(p)),
            1 <= i <= 8,
            cr == ray_row(r as int, d as int, i as int),
            cc == ray_col(c as int, d as int, i as int),
            run_len(b@, p, r as int, c as int, d as int, 1) == (i - 1) + run_len(
                b@,
                p,
                r as int,
                c as int,
                d as int,
                i as int,
            ),
        decreases 8 - i,
    {
        proof {
            lemma_ray_step(r as int, dr as int, i as int);
            lemma_ray_step(c as int, dc as int, i as int);
        }
        i = i + 1;
        cr = cr + dr;
        cc = cc + dc;
    }
    if i > 1 && 0 <= cr && cr < 8 && 0 <= cc && cc < 8 && cell(b, cr, cc) == p.stone() {
        (i - 1) as usize
    } else {
        0
    }
}

/// Whether `p` may play at (r, c).
pub fn is_legal(b: &Vec<Cell>, p: Player, r: i32, c: i32) -> (ok: bool)
    requires
        b@.len() == 64,
    ensures
        ok == legal(b@, p, r as int, c as int),
{
    if r < 0 || r >= 8 || c < 0 || c >= 8 || cell(b, r, c) != Cell::Empty {
        return false;
    }
    let mut total: usize = 0;
    let mut d: usize = 0;
    while d < 8
        invariant
            b@.len() == 64,
            on_board(r as int, c as int),
            d <= 8,
            total == flips_upto(b@, p, r as int, c as int, d as int),
            total <= 8 * d,
        decreases 8 - d,
    {
        let k = captured_count(b, p, r, c, d);
        total = total + k;
        d = d + 1;
    }
    total > 0
}


/// The board once the new stone stands, the runs of the first `d` directions
/// are turned, and so are the first `i - 1` stones of the run in direction `d`.
#[verifier::opaque]
spec fn partly_applied(b: Seq<Cell>, p: Player, r: int, c: int, d: int, i: int) -> Seq<Cell> {
    Seq::new(
        64,
        |j: int|
            if j == index_of(r, c) || flipped_upto(b, p, r, c, d, j / 8, j % 8) || flipped_before(
                b,
                p,
                r,
                c,
                d,
                i,
                j / 8,
                j % 8,
            ) {
                stone(p)
            } else {
                b[j]
            },
    )
}

proof fn lemma_flip_one(b: Seq<Cell>, p: Player, r: int, c: int, d: int, i: int, prev: Seq<Cell>)
    requires
        on_board(r, c),
        0 <= d < 8,
        1 <= i <= captured(b, p, r, c, d),
        prev == partly_applied(b, p, r, c, d, i),
    ensures
        on_board(ray_row(r, d, i), ray_col(c, d, i)),
        prev.update(index_of(ray_row(r, d, i), ray_col(c, d, i)), stone(p)) =~= partly_applied(
            b,
            p,
            r,
            c,
            d,
            i + 1,
        ),
{
    reveal(partly_applied);
    lemma_run_cells(b, p, r, c, d, 1, i);
    let rr = ray_row(r, d, i);
    let cc = ray_col(c, d, i);
    let idx = index_of(rr, cc);
    assert(idx / 8 == rr && idx % 8 == cc);
    assert(ray_pos(r, c, d, rr, cc) == i);
    let next = partly_applied(b, p, r, c, d, i + 1);
    assert forall|j: int| 0 <= j < 64 implies #[trigger] prev.update(idx, stone(p))[j] == next[j] by {
        assert(j == (j / 8) * 8 + j % 8);
    }
}

proof fn lemma_dir_done(b: Seq<Cell>, p: Player, r: int, c: int, d: int)
    requires
        0 <= d < 8,
    ensures
        partly_applied(b, p, r, c, d, captured(b, p, r, c, d) as int + 1) =~= partly_applied(
            b,
            p,
            r,
            c,
            d + 1,
            1,
        ),
{
    reveal(partly_applied);
}

proof fn lemma_apply_ends(b: Seq<Cell>, p: Player, r: int, c: int)
    requires
        b.len() == 64,
        on_board(r, c),
    ensures
        b.update(index_of(r, c), stone(p)) =~= partly_applied(b, p, r, c, 0, 1),
        partly_applied(b, p, r, c, 8, 1) =~= after_move(b, p, r, c),
{
    reveal(partly_applied);
}

/// Plays `p` at (r, c): places the stone and turns every captured run.
/// Returns the number of stones turned.
pub fn apply_move(b: &mut Vec<Cell>, p: Player, r: i32, c: i32) -> (flips: usize)
    requires
        old(b)@.len() == 64,
        on_board(r as int, c as int),
    ensures
        final(b)@ == after_move(old(b)@, p, r as int, c as int),
        flips == total_flips(old(b)@, p, r as int, c as int),
        flips <= 56,
{
    let ghost b0 = b@;
    let mut counts: Vec<usize> = Vec::new();
    let mut d: usize = 0;
    while d < 8
        invariant
            b@ == b0,
            b0.len() == 64,
            on_board(r as int, c as int),
            d <= 8,
            counts@.len() == d,
            forall|e: int| 0 <= e < d ==> counts@[e] == captured(b0, p, r as int, c as int, e),
            forall|e: int| 0 <= e < d ==> counts@[e] < 8,
        decreases 8 - d,
    {
        let k = captured_count(b, p, r, c, d);
        counts.push(k);
        d = d + 1;
    }
    let s = p.stone();
    proof {
        lemma_apply_ends(b0, p, r as int, c as int);
    }
    b[(r * 8 + c) as usize] = s;
    let mut total: usize = 0;
    d = 0;
    while d < 8
        invariant
            b0.len() == 64,
            on_board(r as int, c as int),
            d <= 8,
            s == stone(p),
            counts@.len() == 8,
            forall|e: int| 0 <= e < 8 ==> counts@[e] == captured(b0, p, r as int, c as int, e),
            forall|e: int| 0 <= e < 8 ==> counts@[e] < 8,
            b@ == partly_applied(b0, p, r as int, c as int, d as int, 1),
            b@.len() == 64,
            total == flips_upto(b0, p, r as int, c as int, d as int),
            total <= 7 * d,
        decreases 8 - d,
    {
        let k = counts[d];
        let (dr, dc) = direction(d);
        let mut i: usize = 1;
        let mut cr: i32 = r + dr;
        let mut cc: i32 = c + dc;
        while i <= k
            invariant
                b0.len() == 64,
                on_board(r as int, c as int),
                d < 8,
                s == stone(p),
                dr == dir_row(d as int),
                dc == dir_col(d as int),
                k == captured(b0, p, r as int, c as int, d as int),
                k < 8,
                1 <= i <= k + 1,
                cr == ray_row(r as int, d as int, i as int),
                cc == ray_col(c as int, d as int, i as int),
                b@ == partly_applied(b0, p, r as int, c as int, d as int, i as int),
                b@.len() == 64,
            decreases k + 1 - i,
        {
            proof {
                lemma_flip_one(b0, p, r as int, c as int, d as int, i as int, b@);
                lemma_ray_step(r as int, dr as int, i as int);
                lemma_ray_step(c as int, dc as int, i as int);
            }
            b[(cr * 8 + cc) as usize] = s;
            i = i + 1;
            cr = cr + dr;
            cc = cc + dc;
        }
        proof {
            lemma_dir_done(b0, p, r as int, c as int, d as int);
        }
        total = total + k;
        d = d + 1;
    }
    total
}


/// Number of squares of `s` that hold `v`.
pub open spec fn count_cells(s: Seq<Cell>, v: Cell) -> nat
    decreases s.len(),
{
    if s.len() == 0 {
        0
    } else {
        count_cells(s.drop_last(), v) + if s.last() == v {
            1nat
        } else {
            0nat
        }
    }
}

/// Number of squares of `s` that hold a stone.
pub open spec fn count_occupied(s: Seq<Cell>) -> nat
    decreases s.len(),
{
    if s.len() == 0 {
        0
    } else {
        count_occupied(s.drop_last()) + if s.last() != Cell::Empty {
            1nat
        } else {
            0nat
        }
    }
}

proof fn lemma_count_keeps(s1: Seq<Cell>, s2: Seq<Cell>, v: Cell, j0: int)
    requires
        s1.len() == s2.len(),
        forall|j: int| 0 <= j < s1.len() && s1[j] == v ==> s2[j] == v,
        0 <= j0 < s1.len(),
        s1[j0] != v,
        s2[j0] == v,
    ensures
        count_cells(s2, v) > count_cells(s1, v),
    decreases s1.len(),
{
    if j0 < s1.len() - 1 {
        lemma_count_keeps(s1.drop_last(), s2.drop_last(), v, j0);
    } else {
        lemma_count_keeps_weak(s1.drop_last(), s2.drop_last(), v);
    }
}

proof fn lemma_count_keeps_weak(s1: Seq<Cell>, s2: Seq<Cell>, v: Cell)
    requires
        s1.len() == s2.len(),
        forall|j: int| 0 <= j < s1.len() && s1[j] == v ==> s2[j] == v,
    ensures
        count_cells(s2, v) >= count_cells(s1, v),
    decreases s1.len(),
{
    if s1.len() > 0 {
        lemma_count_keeps_weak(s1.drop_last(), s2.drop_last(), v);
    }
}

proof fn lemma_occupied_keeps(s1: Seq<Cell>, s2: Seq<Cell>)
    requires
        s1.len() == s2.len(),
        forall|j: int| 0 <= j < s1.len() && s1[j] != Cell::Empty ==> s2[j] != Cell::Empty,
    ensures
        count_occupied(s2) >= count_occupied(s1),
    decreases s1.len(),
{
    if s1.len() > 0 {
        lemma_occupied_keeps(s1.drop_last(), s2.drop_last());
    }
}

/// A legal move strictly adds to the mover's stones and never lowers the
/// number of stones on the board.
pub proof fn lemma_move_gains(b: Seq<Cell>, p: Player, r: int, c: int)
    requires
        b.len() == 64,
        legal(b, p, r, c),
    ensures
        count_cells(after_move(b, p, r, c), stone(p)) > count_cells(b, stone(p)),
        count_occupied(after_move(b, p, r, c)) >= count_occupied(b),
{
    let a = after_move(b, p, r, c);
    lemma_count_keeps(b, a, stone(p), index_of(r, c));
    assert forall|j: int| 0 <= j < 64 && b[j] != Cell::Empty implies a[j] != Cell::Empty by {
        if a[j] != b[j] {
            assert(a[j] == stone(p));
        }
    }
    lemma_occupied_keeps(b, a);
}

/// A legal move fills one empty square and empties none.
pub proof fn lemma_move_fills(b: Seq<Cell>, p: Player, r: int, c: int)
    requires
        b.len() == 64,
        legal(b, p, r, c),
    ensures
        count_cells(after_move(b, p, r, c), Cell::Empty) < count_cells(b, Cell::Empty),
{
    let a = after_move(b, p, r, c);
    lemma_count_keeps(a, b, Cell::Empty, index_of(r, c));
}

/// No square holds `v` more often than there are squares.
pub proof fn lemma_count_bound(s: Seq<Cell>, v: Cell)
    ensures
        count_cells(s, v) <= s.len(),
    decreases s.len(),
{
    if s.len() > 0 {
        lemma_count_bound(s.drop_last(), v);
    }
}

/// Legal moves of `p` among the first `n` squares, in square order, as
/// one-based (column, row) pairs.
pub open spec fn moves_upto(b: Seq<Cell>, p: Player, n: int) -> Seq<(i32, i32)>
    decreases n,
{
    if n <= 0 {
        seq![]
    } else {
        let rest = moves_upto(b, p, n - 1);
        if legal_square(b, p, n - 1) {
            rest.push((((n - 1) % 8 + 1) as i32, ((n - 1) / 8 + 1) as i32))
        } else {
            rest
        }
    }
}

/// Square `j` (row-major index) is a legal move of `p`.
pub open spec fn legal_square(b: Seq<Cell>, p: Player, j: int) -> bool {
    legal(b, p, j / 8, j % 8)
}

/// All legal moves of `p`, in square order.
pub open spec fn legal_moves(b: Seq<Cell>, p: Player) -> Seq<(i32, i32)> {
    moves_upto(b, p, 64)
}

/// `p` has at least one legal move.
pub open spec fn has_move(b: Seq<Cell>, p: Player) -> bool {
    exists|r: int, c: int| legal(b, p, r, c)
}

/// The one-based (column, row) pair `m` names a legal move of `p`.
pub open spec fn legal_at(b: Seq<Cell>, p: Player, m: (i32, i32)) -> bool {
    legal(b, p, m.1 - 1, m.0 - 1)
}

/// Every listed move is legal, and the list is empty exactly when no
/// square among the first `n` is a legal move.
pub proof fn lemma_moves_upto(b: Seq<Cell>, p: Player, n: int)
    requires
        0 <= n <= 64,
    ensures
        forall|k: int| 0 <= k < moves_upto(b, p, n).len() ==> legal_at(b, p, #[trigger] moves_upto(b, p, n)[k]),
        moves_upto(b, p, n).len() == 0 <==> forall|j: int| 0 <= j < n ==> !#[trigger] legal_square(b, p, j),
        moves_upto(b, p, n).len() <= n,
    decreases n,
{
    if n > 0 {
        lemma_moves_upto(b, p, n - 1);
    }
}

/// The move list is empty exactly when `p` has no legal move.
pub proof fn lemma_legal_moves(b: Seq<Cell>, p: Player)
    ensures
        forall|k: int| 0 <= k < legal_moves(b, p).len() ==> legal_at(b, p, #[trigger] legal_moves(b, p)[k]),
        legal_moves(b, p).len() == 0 <==> !has_move(b, p),
        legal_moves(b, p).len() <= 64,
{
    lemma_moves_upto(b, p, 64);
    if has_move(b, p) {
        let (r, c) = choose|r: int, c: int| legal(b, p, r, c);
        let j = r * 8 + c;
        assert(j / 8 == r && j % 8 == c);
        assert(legal_square(b, p, j));
    }
    if legal_moves(b, p).len() != 0 {
        let j = choose|j: int| 0 <= j < 64 && legal_square(b, p, j);
        assert(legal(b, p, j / 8, j % 8));
    }
}

/// The legal moves of `p`, in square order, as one-based (column, row) pairs.
pub fn moves_of(b: &Vec<Cell>, p: Player) -> (ms: Vec<(i32, i32)>)
    requires
        b@.len() == 64,
    ensures
        ms@ == legal_moves(b@, p),
{
    let mut ms: Vec<(i32, i32)> = Vec::new();
    let mut j: i32 = 0;
    while j < 64
        invariant
            b@.len() == 64,
            0 <= j <= 64,
            ms@ == moves_upto(b@, p, j as int),
        decreases 64 - j,
    {
        let r = j / 8;
        let c = j % 8;
        if is_legal(b, p, r, c) {
            ms.push((c + 1, r + 1));
        }
        j = j + 1;
    }
    ms
}


/// Reward for a corner square, before captures.
pub const CORNER_REWARD: i32 = 20;

/// Reward for any other edge square, before captures.
pub const EDGE_REWARD: i32 = 5;

/// Reward for an inner square, before captures.
pub const INNER_REWARD: i32 = 1;

pub open spec fn is_corner(r: int, c: int) -> bool {
    (r == 0 || r == 7) && (c == 0 || c == 7)
}

pub open spec fn is_edge(r: int, c: int) -> bool {
    r == 0 || r == 7 || c == 0 || c == 7
}

/// A square diagonally next to a corner.
pub open spec fn is_x_square(r: int, c: int) -> bool {
    (r == 1 || r == 6) && (c == 1 || c == 6)
}

/// Positional reward of a move at (r, c) that turns `flips` stones: nothing
/// on a square next to a corner diagonally; otherwise the square's tier
/// (corner, edge, inner) plus one per stone turned.
pub open spec fn reward_for(r: int, c: int, flips: int) -> int {
    if is_x_square(r, c) {
        0
    } else if is_corner(r, c) {
        CORNER_REWARD + flips
    } else if is_edge(r, c) {
        EDGE_REWARD + flips
    } else {
        INNER_REWARD + flips
    }
}

/// Positional reward of a move at (r, c) that turns `flips` stones.
pub fn move_reward(r: i32, c: i32, flips: usize) -> (w: i32)
    requires
        on_board(r as int, c as int),
        flips <= 56,
    ensures
        w == reward_for(r as int, c as int, flips as int),
        0 <= w <= 76,
{
    let f = flips as i32;
    if (r == 1 || r == 6) && (c == 1 || c == 6) {
        0
    } else if (r == 0 || r == 7) && (c == 0 || c == 7) {
        CORNER_REWARD + f
    } else if r == 0 || r == 7 || c == 0 || c == 7 {
        EDGE_REWARD + f
    } else {
        INNER_REWARD + f
    }
}


/// A square as text: its digit (0 empty, 1 black, 2 white) and a space.
pub open spec fn cell_text(v: Cell) -> Seq<char> {
    match v {
        Cell::Empty => "0 "@,
        Cell::Black => "1 "@,
        Cell::White => "2 "@,
    }
}

/// The label in front of row `r`.
pub open spec fn row_label(r: int) -> Seq<char> {
    if r == 0 {
        "0 | "@
    } else if r == 1 {
        "1 | "@
    } else if r == 2 {
        "2 | "@
    } else if r == 3 {
        "3 | "@
    } else if r == 4 {
        "4 | "@
    } else if r == 5 {
        "5 | "@
    } else if r == 6 {
        "6 | "@
    } else {
        "7 | "@
    }
}

/// The first `n` squares of row `r` as text.
pub open spec fn cells_text(b: Seq<Cell>, r: int, n: int) -> Seq<char>
    decreases n,
{
    if n <= 0 {
        Seq::empty()
    } else {
        cells_text(b, r, n - 1) + cell_text(cell_at(b, r, n - 1))
    }
}

/// The first `n` rows as text, one line each.
pub open spec fn rows_text(b: Seq<Cell>, n: int) -> Seq<char>
    decreases n,
{
    if n <= 0 {
        Seq::empty()
    } else {
        rows_text(b, n - 1) + row_label(n - 1) + cells_text(b, n - 1, 8) + "\n"@
    }
}

/// The board as text: a header of column numbers and a rule, then one
/// line per row.
pub open spec fn board_text_of(b: Seq<Cell>) -> Seq<char> {
    "    0 1 2 3 4 5 6 7\n"@ + "   ----------------\n"@ + rows_text(b, 8)
}

fn row_label_str(r: usize) -> (s: &'static str)
    requires
        r < 8,
    ensures
        s@ == row_label(r as int),
{
    if r == 0 {
        "0 | "
    } else if r == 1 {
        "1 | "
    } else if r == 2 {
        "2 | "
    } else if r == 3 {
        "3 | "
    } else if r == 4 {
        "4 | "
    } else if r == 5 {
        "5 | "
    } else if r == 6 {
        "6 | "
    } else {
        "7 | "
    }
}

fn cell_str(v: Cell) -> (s: &'static str)
    ensures
        s@ == cell_text(v),
{
    match v {
        Cell::Empty => "0 ",
        Cell::Black => "1 ",
        Cell::White => "2 ",
    }
}

/// The board as text, for printing.
pub fn board_text(b: &Vec<Cell>) -> (s: String)
    requires
        b@.len() == 64,
    ensures
        s@ == board_text_of(b@),
{
    let mut s = String::new();
    s.append("    0 1 2 3 4 5 6 7\n");
    s.append("   ----------------\n");
    let mut r: usize = 0;
    while r < 8
        invariant
            b@.len() == 64,
            r <= 8,
            s@ == "    0 1 2 3 4 5 6 7\n"@ + "   ----------------\n"@ + rows_text(b@, r as int),
        decreases 8 - r,
    {
        let ghost head = s@;
        s.append(row_label_str(r));
        let mut c: usize = 0;
        while c < 8
            invariant
                b@.len() == 64,
                r < 8,
                c <= 8,
                s@ == head + row_label(r as int) + cells_text(b@, r as int, c as int),
            decreases 8 - c,
        {
            s.append(cell_str(b[r * 8 + c]));
            proof {
                assert(s@ =~= head + row_label(r as int) + cells_text(b@, r as int, c as int + 1));
            }
            c = c + 1;
        }
        s.append("\n");
        proof {
            assert(s@ =~= "    0 1 2 3 4 5 6 7\n"@ + "   ----------------\n"@ + rows_text(b@, r as int + 1));
        }
        r = r + 1;
    }
    s
}

} // verus!
