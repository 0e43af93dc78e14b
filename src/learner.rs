//! The learning opponent's table of state-action values and its policy.
//!
//! Values are fixed point: `SCALE` stands for 1.0. A board and a move are
//! keyed by the board read as a base-3 number, times 64, plus the square.
use crate::board::{
    Cell, Player, after_move, apply_move, count_cells, has_move, is_legal, legal, legal_at, legal_moves,
    lemma_count_bound, lemma_legal_moves, lemma_move_fills, move_reward,
    moves_of, opponent, reward_for, total_flips,
};
use rand::Rng;
use std::collections::HashMap;
use vstd::prelude::*;

verus! {

broadcast use vstd::std_specs::hash::group_hash_axioms;

/// Fixed-point unit: a stored value of `SCALE` stands for 1.0.
pub const SCALE: u64 = 1000;

/// Value of an entry that was never updated (1.0).
pub const DEFAULT_VALUE: u64 = 1000;

/// No stored value exceeds this.
pub const MAX_VALUE: u64 = 1_000_000_000;

/// No reward handed to an update exceeds this.
pub const MAX_REWARD: i32 = 100;

/// Rates of the learning opponent, each in percent: how often it explores,
/// how far one update moves a value, and how much the next value counts.
#[derive(Debug, Clone, Copy, PartialEq, Eq, Structural)]
pub struct Rates {
    pub epsilon: u64,
    pub alpha: u64,
    pub gamma: u64,
}

impl Rates {
    pub open spec fn wf(self) -> bool {
        self.epsilon <= 100 && self.alpha <= 100 && self.gamma < 100
    }

    /// Exploration 20%, learning rate 20%, discount 80%.
    pub fn standard() -> (r: Rates)
        ensures
            r == (Rates { epsilon: 20, alpha: 20, gamma: 80 }),
            r.wf(),
    {
        Rates { epsilon: 20, alpha: 20, gamma: 80 }
    }
}

pub open spec fn digit(v: Cell) -> nat {
    match v {
        Cell::Empty => 0,
        Cell::Black => 1,
        Cell::White => 2,
    }
}

/// The first `n` squares read as a base-3 number, the first square most significant.
pub open spec fn code_upto(b: Seq<Cell>, n: int) -> nat
    decreases n,
{
    if n <= 0 {
        0
    } else {
        code_upto(b, n - 1) * 3 + digit(b[n - 1])
    }
}

pub open spec fn pow3(n: nat) -> nat
    decreases n,
{
    if n == 0 {
        1
    } else {
        3 * pow3((n - 1) as nat)
    }
}

/// Key of the table entry for playing the one-based (column, row) move `m` on `b`.
pub open spec fn entry_key(b: Seq<Cell>, m: (i32, i32)) -> int {
    code_upto(b, 64) * 64 + (m.1 - 1) * 8 + (m.0 - 1)
}

/// Stored value of `key`, read as at most `MAX_VALUE`, or the default one
/// for a key never stored.
pub open spec fn value_of(t: Map<u128, u64>, key: int) -> nat {
    if 0 <= key <= u128::MAX && t.contains_key(key as u128) {
        if t[key as u128] <= MAX_VALUE {
            t[key as u128] as nat
        } else {
            MAX_VALUE as nat
        }
    } else {
        DEFAULT_VALUE as nat
    }
}

/// Index of the first greatest of `vals[0..n]`.
pub open spec fn best_upto(vals: Seq<nat>, n: int) -> int
    decreases n,
{
    if n <= 1 {
        0
    } else {
        let b = best_upto(vals, n - 1);
        if vals[n - 1] > vals[b] {
            n - 1
        } else {
            b
        }
    }
}

/// The values of the moves `ms` on `b`.
pub open spec fn move_values(t: Map<u128, u64>, b: Seq<Cell>, ms: Seq<(i32, i32)>) -> Seq<nat> {
    Seq::new(ms.len(), |k: int| value_of(t, entry_key(b, ms[k])))
}

/// The legal move of `p` with the greatest value, the first one in square
/// order among equals.
pub open spec fn greedy_choice(t: Map<u128, u64>, b: Seq<Cell>, p: Player) -> (i32, i32) {
    let ms = legal_moves(b, p);
    ms[best_upto(move_values(t, b, ms), ms.len() as int)]
}

/// `t` once each of the first `n` moves of `ms` has an entry, a new one
/// holding the default value.
pub open spec fn with_defaults(t: Map<u128, u64>, b: Seq<Cell>, ms: Seq<(i32, i32)>, n: int) -> Map<
    u128,
    u64,
>
    decreases n,
{
    if n <= 0 {
        t
    } else {
        let m = with_defaults(t, b, ms, n - 1);
        let key = entry_key(b, ms[n - 1]) as u128;
        if m.contains_key(key) {
            m
        } else {
            m.insert(key, DEFAULT_VALUE)
        }
    }
}

/// The table after the values of all legal moves of `p` on `b` were looked up.
pub open spec fn looked_up(t: Map<u128, u64>, b: Seq<Cell>, p: Player) -> Map<u128, u64> {
    let ms = legal_moves(b, p);
    with_defaults(t, b, ms, ms.len() as int)
}

/// Every key of `t1` is a key of `t2`: no entry is ever removed.
pub open spec fn keeps_keys(t1: Map<u128, u64>, t2: Map<u128, u64>) -> bool {
    forall|k: u128| #[trigger] t1.contains_key(k) ==> t2.contains_key(k)
}

/// The board after `p` plays its greedy move on `b`.
pub open spec fn greedy_answer(t: Map<u128, u64>, b: Seq<Cell>, p: Player) -> Seq<Cell> {
    let m = greedy_choice(t, b, p);
    after_move(b, p, m.1 - 1, m.0 - 1)
}

/// While `me` has no legal move and the other side has one, the other side
/// plays its greedy move again, at most `fuel` times.
pub open spec fn answers_from(t: Map<u128, u64>, b: Seq<Cell>, me: Player, fuel: nat) -> Seq<Cell>
    decreases fuel,
{
    if fuel == 0 || has_move(b, me) || !has_move(b, opponent(me)) {
        b
    } else {
        answers_from(t, greedy_answer(t, b, opponent(me)), me, (fuel - 1) as nat)
    }
}

/// The board once the side other than `me` has answered on `b`: its greedy
/// move if it has one, then more greedy moves while `me` is stuck.
pub open spec fn answered(t: Map<u128, u64>, b: Seq<Cell>, me: Player) -> Seq<Cell> {
    if has_move(b, opponent(me)) {
        answers_from(t, greedy_answer(t, b, opponent(me)), me, 64)
    } else {
        b
    }
}

/// One temporal-difference step in fixed point: the estimate `q` moves
/// toward `reward + gamma * next` by the fraction `alpha`.
pub open spec fn td_value(rates: Rates, q: int, reward: int, next: int) -> int {
    ((100 - rates.alpha) * q + rates.alpha * (reward * SCALE + rates.gamma * next / 100)) / 100
}

proof fn lemma_code_bound(b: Seq<Cell>, n: int)
    requires
        0 <= n <= b.len(),
    ensures
        code_upto(b, n) < pow3(n as nat),
    decreases n,
{
    if n > 0 {
        lemma_code_bound(b, n - 1);
    }
}

proof fn lemma_pow3_64()
    ensures
        pow3(64) * 64 + 64 <= u128::MAX,
{
    reveal_with_fuel(pow3, 65);
    assert(pow3(64) == 3433683820292512484657849089281nat);
}

/// Keys of moves on the board fit in a `u128`.
pub proof fn lemma_key_range(b: Seq<Cell>, m: (i32, i32))
    requires
        b.len() == 64,
        1 <= m.0 <= 8,
        1 <= m.1 <= 8,
    ensures
        0 <= entry_key(b, m) <= u128::MAX,
{
    lemma_code_bound(b, 64);
    lemma_pow3_64();
}

/// The board read as a base-3 number.
pub fn board_code(b: &Vec<Cell>) -> (code: u128)
    requires
        b@.len() == 64,
    ensures
        code == code_upto(b@, 64),
        code < pow3(64),
{
    proof {
        lemma_pow3_64();
    }
    let mut code: u128 = 0;
    let mut j: usize = 0;
    while j < 64
        invariant
            b@.len() == 64,
            j <= 64,
            code == code_upto(b@, j as int),
            code < pow3(j as nat),
            pow3(64) * 64 + 64 <= u128::MAX,
        decreases 64 - j,
    {
        proof {
            lemma_pow3_mono(j as nat, 64);
        }
        let v: u128 = match b[j] {
            Cell::Empty => 0,
            Cell::Black => 1,
            Cell::White => 2,
        };
        code = code * 3 + v;
        j = j + 1;
    }
    code
}

proof fn lemma_pow3_mono(i: nat, n: nat)
    requires
        i <= n,
    ensures
        pow3(i) <= pow3(n),
    decreases n - i,
{
    if i < n {
        lemma_pow3_mono(i + 1, n);
    }
}

/// Key of the entry for move `m` on the board whose code is `code`.
pub fn entry_key_of(code: u128, m: (i32, i32)) -> (key: u128)
    requires
        code < pow3(64),
        1 <= m.0 <= 8,
        1 <= m.1 <= 8,
    ensures
        key == code * 64 + (m.1 - 1) * 8 + (m.0 - 1),
{
    proof {
        lemma_pow3_64();
    }
    code * 64 + ((m.1 - 1) * 8 + (m.0 - 1)) as u128
}

/// Relies on rand's `thread_rng().gen_range(0, n)`: a number below `n`,
/// drawn afresh on each call; it panics when `n` is zero.
#[verifier::external_body]
fn random_below(n: usize) -> (r: usize)
    requires
        n > 0,
    ensures
        r < n,
{
    rand::thread_rng().gen_range(0, n)
}

/// Looking up values adds entries with the default value and changes no value.
pub proof fn lemma_with_defaults(t: Map<u128, u64>, b: Seq<Cell>, ms: Seq<(i32, i32)>, n: int)
    requires
        0 <= n <= ms.len(),
    ensures
        forall|key: int| value_of(#[trigger] with_defaults(t, b, ms, n), key) == value_of(t, key),
        keeps_keys(t, with_defaults(t, b, ms, n)),
    decreases n,
{
    if n > 0 {
        lemma_with_defaults(t, b, ms, n - 1);
    }
}

proof fn lemma_code_injective(b1: Seq<Cell>, b2: Seq<Cell>, n: int)
    requires
        0 <= n <= b1.len(),
        n <= b2.len(),
        code_upto(b1, n) == code_upto(b2, n),
    ensures
        b1.subrange(0, n) =~= b2.subrange(0, n),
    decreases n,
{
    if n > 0 {
        let d1 = digit(b1[n - 1]) as int;
        let d2 = digit(b2[n - 1]) as int;
        assert(code_upto(b1, n - 1) == code_upto(b2, n - 1) && d1 == d2);
        lemma_code_injective(b1, b2, n - 1);
        assert(b1[n - 1] == b2[n - 1]);
        assert forall|i: int| 0 <= i < n implies b1.subrange(0, n)[i] == b2.subrange(0, n)[i] by {
            if i < n - 1 {
                assert(b1.subrange(0, n - 1)[i] == b2.subrange(0, n - 1)[i]);
            }
        }
    }
}

/// Different boards, or different moves, never share a key.
pub proof fn lemma_key_injective(b1: Seq<Cell>, m1: (i32, i32), b2: Seq<Cell>, m2: (i32, i32))
    requires
        b1.len() == 64,
        b2.len() == 64,
        1 <= m1.0 <= 8,
        1 <= m1.1 <= 8,
        1 <= m2.0 <= 8,
        1 <= m2.1 <= 8,
        entry_key(b1, m1) == entry_key(b2, m2),
    ensures
        b1 == b2,
        m1 == m2,
{
    assert(code_upto(b1, 64) == code_upto(b2, 64));
    lemma_code_injective(b1, b2, 64);
    assert(b1.subrange(0, 64) =~= b1);
    assert(b2.subrange(0, 64) =~= b2);
}

/// Every value of `t` that differs from `t1` belongs to a board with fewer
/// than `e` empty squares.
pub open spec fn later_only(t1: Map<u128, u64>, t: Map<u128, u64>, e: nat) -> bool {
    forall|key: int|
        value_of(t, key) != value_of(t1, key) ==> exists|s: Seq<Cell>, m: (i32, i32)|
            s.len() == 64 && 1 <= m.0 <= 8 && 1 <= m.1 <= 8 && count_cells(s, Cell::Empty) < e && key
                == #[trigger] entry_key(s, m)
}

/// Values of boards with at least `e` empty squares are untouched by
/// changes that only concern fuller boards.
pub proof fn lemma_later_untouched(t1: Map<u128, u64>, t: Map<u128, u64>, e: nat, s: Seq<Cell>, m: (i32, i32))
    requires
        later_only(t1, t, e),
        s.len() == 64,
        1 <= m.0 <= 8,
        1 <= m.1 <= 8,
        count_cells(s, Cell::Empty) >= e,
    ensures
        value_of(t, entry_key(s, m)) == value_of(t1, entry_key(s, m)),
{
    let key = entry_key(s, m);
    if value_of(t, key) != value_of(t1, key) {
        let (s2, m2) = choose|s2: Seq<Cell>, m2: (i32, i32)|
            s2.len() == 64 && 1 <= m2.0 <= 8 && 1 <= m2.1 <= 8 && count_cells(s2, Cell::Empty) < e
                && key == #[trigger] entry_key(s2, m2);
        lemma_key_injective(s, m, s2, m2);
    }
}

/// Tables that agree on every value make the same greedy choice.
pub proof fn lemma_same_values_same_choice(t1: Map<u128, u64>, t2: Map<u128, u64>, b: Seq<Cell>, p: Player)
    requires
        forall|key: int| value_of(t1, key) == value_of(t2, key),
    ensures
        greedy_choice(t1, b, p) == greedy_choice(t2, b, p),
{
    let ms = legal_moves(b, p);
    assert(move_values(t1, b, ms) =~= move_values(t2, b, ms));
}

/// An update moves a value toward its target `reward + gamma * next` and
/// never past it, so repeated updates toward a fixed target approach it
/// monotonically.
pub proof fn lemma_td_toward_target(rates: Rates, q: int, reward: int, next: int)
    requires
        rates.wf(),
        0 <= q,
        0 <= reward,
        0 <= next,
    ensures
        ({
            let target = reward * SCALE + rates.gamma * next / 100;
            &&& q <= target ==> q <= td_value(rates, q, reward, next) <= target
            &&& target <= q ==> target <= td_value(rates, q, reward, next) <= q
        }),
{
    let target = reward * SCALE + rates.gamma * next / 100;
    let a = rates.alpha as int;
    let num = (100 - a) * q + a * target;
    assert(q <= target ==> 100 * q <= num <= 100 * target) by (nonlinear_arith)
        requires
            0 <= a <= 100,
            num == (100 - a) * q + a * target,
    ;
    assert(target <= q ==> 100 * target <= num <= 100 * q) by (nonlinear_arith)
        requires
            0 <= a <= 100,
            num == (100 - a) * q + a * target,
    ;
}

proof fn lemma_td_bound(rates: Rates, q: int, reward: int, next: int)
    requires
        rates.wf(),
        0 <= q <= MAX_VALUE,
        0 <= reward <= MAX_REWARD,
        0 <= next <= MAX_VALUE,
    ensures
        0 <= td_value(rates, q, reward, next) <= MAX_VALUE,
{
    let g = rates.gamma * next / 100;
    assert(0 <= rates.gamma * next <= 99 * MAX_VALUE) by (nonlinear_arith)
        requires
            0 <= rates.gamma <= 99,
            0 <= next <= MAX_VALUE,
    ;
    let target = reward * SCALE + g;
    assert(0 <= target <= MAX_VALUE);
    let a = rates.alpha as int;
    assert(0 <= (100 - a) * q + a * target <= 100 * MAX_VALUE) by (nonlinear_arith)
        requires
            0 <= a <= 100,
            0 <= q <= MAX_VALUE,
            0 <= target <= MAX_VALUE,
    ;
}

/// A table of state-action values, and the rates that drive its updates.
#[derive(Debug, Clone)]
pub struct QTable {
    pub entries: HashMap<u128, u64>,
    pub rates: Rates,
}

impl View for QTable {
    type V = Map<u128, u64>;

    open spec fn view(&self) -> Map<u128, u64> {
        self.entries@
    }
}

impl QTable {
    pub open spec fn wf(&self) -> bool {
        self.rates.wf()
    }

    /// Whether the rates are in range.
    pub fn is_valid(&self) -> (ok: bool)
        ensures
            ok == self.wf(),
    {
        self.rates.epsilon <= 100 && self.rates.alpha <= 100 && self.rates.gamma < 100
    }

    /// An empty table with the standard rates.
    pub fn new() -> (t: QTable)
        ensures
            t@ == Map::<u128, u64>::empty(),
            t.rates == (Rates { epsilon: 20, alpha: 20, gamma: 80 }),
            t.wf(),
    {
        QTable { entries: HashMap::new(), rates: Rates::standard() }
    }

    /// Value of `key`; a key never seen gets an entry with the default value.
    pub fn lookup(&mut self, key: u128) -> (v: u64)
        requires
            old(self).wf(),
        ensures
            final(self).wf(),
            final(self).rates == old(self).rates,
            final(self)@ == (if old(self)@.contains_key(key) {
                old(self)@
            } else {
                old(self)@.insert(key, DEFAULT_VALUE)
            }),
            v == value_of(old(self)@, key as int),
            v <= MAX_VALUE,
    {
        match self.entries.get(&key) {
            Some(v) => if *v <= MAX_VALUE {
                *v
            } else {
                MAX_VALUE
            },
            None => {
                self.entries.insert(key, DEFAULT_VALUE);
                DEFAULT_VALUE
            },
        }
    }

    /// A copy of the entries with the same rates.
    pub fn duplicate(&self) -> (r: QTable)
        ensures
            r.rates == self.rates,
            r@ == self@,
    {
        QTable { entries: self.entries.clone(), rates: self.rates }
    }

    /// Stores `v` under `key`.
    pub fn store(&mut self, key: u128, v: u64)
        requires
            old(self).wf(),
        ensures
            final(self).wf(),
            final(self).rates == old(self).rates,
            final(self)@ == old(self)@.insert(key, v),
    {
        self.entries.insert(key, v);
    }

    /// Looks up every legal move of `p` on `b` and returns the one with the
    /// greatest value, the first in square order among equals.
    pub fn greedy(&mut self, b: &Vec<Cell>, p: Player) -> (m: (i32, i32))
        requires
            old(self).wf(),
            b@.len() == 64,
            has_move(b@, p),
        ensures
            final(self).wf(),
            final(self).rates == old(self).rates,
            final(self)@ == looked_up(old(self)@, b@, p),
            m == greedy_choice(old(self)@, b@, p),
            legal_at(b@, p, m),
    {
        let ms = moves_of(b, p);
        proof {
            lemma_legal_moves(b@, p);
        }
        let code = board_code(b);
        let ghost t0 = self@;
        let ghost vals = move_values(t0, b@, ms@);
        let mut best: usize = 0;
        let mut best_v: u64 = 0;
        let mut k: usize = 0;
        while k < ms.len()
            invariant
                b@.len() == 64,
                ms@ == legal_moves(b@, p),
                0 < ms@.len() <= 64,
                forall|i: int| 0 <= i < ms@.len() ==> legal_at(b@, p, #[trigger] ms@[i]),
                code == crate::learner::code_upto(b@, 64),
                code < pow3(64),
                vals == move_values(t0, b@, ms@),
                self.wf(),
                self.rates == old(self).rates,
                self@ == with_defaults(t0, b@, ms@, k as int),
                k <= ms@.len(),
                best < ms@.len(),
                k > 0 ==> best == best_upto(vals, k as int),
                k > 0 ==> best_v == vals[best as int],
            decreases ms@.len() - k,
        {
            let m = ms[k];
            proof {
                lemma_key_range(b@, m);
                lemma_with_defaults(t0, b@, ms@, k as int);
            }
            let key = entry_key_of(code, m);
            let v = self.lookup(key);
            if k == 0 || v > best_v {
                best = k;
                best_v = v;
            }
            k = k + 1;
        }
        ms[best]
    }

    /// Epsilon-greedy choice from two draws: with `roll` below the
    /// exploration rate, the legal move at position `pick`, the table left
    /// as it is; otherwise the greedy move.
    pub fn select_move(&mut self, b: &Vec<Cell>, p: Player, roll: u64, pick: usize) -> (m: (i32, i32))
        requires
            old(self).wf(),
            b@.len() == 64,
            pick < legal_moves(b@, p).len(),
        ensures
            final(self).wf(),
            final(self).rates == old(self).rates,
            roll < old(self).rates.epsilon ==> m == legal_moves(b@, p)[pick as int] && final(self)@
                == old(self)@,
            roll >= old(self).rates.epsilon ==> m == greedy_choice(old(self)@, b@, p) && final(self)@
                == looked_up(old(self)@, b@, p),
            legal_at(b@, p, m),
    {
        proof {
            lemma_legal_moves(b@, p);
        }
        if roll < self.rates.epsilon {
            let ms = moves_of(b, p);
            ms[pick]
        } else {
            self.greedy(b, p)
        }
    }

    /// Epsilon-greedy choice with fresh random draws. Whatever is drawn, the
    /// move is legal and no value in the table changes.
    pub fn explore(&mut self, b: &Vec<Cell>, p: Player) -> (m: (i32, i32))
        requires
            old(self).wf(),
            b@.len() == 64,
            has_move(b@, p),
        ensures
            final(self).wf(),
            final(self).rates == old(self).rates,
            legal_at(b@, p, m),
            final(self)@ == old(self)@ || final(self)@ == looked_up(old(self)@, b@, p),
            forall|key: int| value_of(final(self)@, key) == value_of(old(self)@, key),
            keeps_keys(old(self)@, final(self)@),
    {
        proof {
            lemma_legal_moves(b@, p);
            lemma_with_defaults(self@, b@, legal_moves(b@, p), legal_moves(b@, p).len() as int);
        }
        let n = moves_of(b, p).len();
        let roll = random_below(100) as u64;
        let pick = random_below(n);
        self.select_move(b, p, roll, pick)
    }

    /// The side other than `me` answers on the scratch board `b` with its
    /// greedy moves, and keeps moving while `me` has no legal move: the board
    /// becomes `answered`. Returns whether `me` then has a legal move; when
    /// it does not, neither side has. Lookups only add default entries.
    pub fn opponent_replies(&mut self, b: &mut Vec<Cell>, me: Player) -> (go_on: bool)
        requires
            old(self).wf(),
            old(b)@.len() == 64,
        ensures
            final(self).wf(),
            final(self).rates == old(self).rates,
            forall|key: int| value_of(final(self)@, key) == value_of(old(self)@, key),
            keeps_keys(old(self)@, final(self)@),
            final(b)@ == answered(old(self)@, old(b)@, me),
            final(b)@.len() == 64,
            count_cells(final(b)@, Cell::Empty) <= count_cells(old(b)@, Cell::Empty),
            go_on == has_move(final(b)@, me),
            !go_on ==> !has_move(final(b)@, opponent(me)),
    {
        let foe = me.other();
        let ghost t0 = self@;
        let ghost b0 = b@;
        proof {
            lemma_legal_moves(b@, foe);
            lemma_legal_moves(b@, me);
            lemma_count_bound(b@, Cell::Empty);
        }
        if moves_of(b, foe).len() == 0 {
            return moves_of(b, me).len() != 0;
        }
        self.reply(b, foe);
        let ghost mut fuel: nat = 64;
        loop
            invariant
                self.wf(),
                self.rates == old(self).rates,
                t0 == old(self)@,
                b0 == old(b)@,
                forall|key: int| value_of(self@, key) == value_of(t0, key),
                keeps_keys(t0, self@),
                b@.len() == 64,
                count_cells(b@, Cell::Empty) <= count_cells(b0, Cell::Empty),
                count_cells(b@, Cell::Empty) < fuel,
                foe == opponent(me),
                answered(t0, b0, me) == answers_from(t0, b@, me, fuel),
            decreases count_cells(b@, Cell::Empty),
        {
            proof {
                lemma_legal_moves(b@, foe);
                lemma_legal_moves(b@, me);
            }
            if moves_of(b, me).len() != 0 {
                return true;
            }
            if moves_of(b, foe).len() == 0 {
                return false;
            }
            proof {
                lemma_same_values_same_choice(t0, self@, b@, foe);
            }
            self.reply(b, foe);
            proof {
                fuel = (fuel - 1) as nat;
            }
        }
    }

    /// `p` plays its greedy move on the scratch board `b`.
    fn reply(&mut self, b: &mut Vec<Cell>, p: Player) -> (m: (i32, i32))
        requires
            old(self).wf(),
            old(b)@.len() == 64,
            has_move(old(b)@, p),
        ensures
            final(self).wf(),
            final(self).rates == old(self).rates,
            forall|key: int| value_of(final(self)@, key) == value_of(old(self)@, key),
            keeps_keys(old(self)@, final(self)@),
            m == greedy_choice(old(self)@, old(b)@, p),
            legal_at(old(b)@, p, m),
            final(b)@ == after_move(old(b)@, p, m.1 - 1, m.0 - 1),
            count_cells(final(b)@, Cell::Empty) < count_cells(old(b)@, Cell::Empty),
    {
        proof {
            lemma_legal_moves(b@, p);
            lemma_with_defaults(self@, b@, legal_moves(b@, p), legal_moves(b@, p).len() as int);
        }
        let m = self.greedy(b, p);
        proof {
            lemma_move_fills(b@, p, m.1 - 1, m.0 - 1);
        }
        apply_move(b, p, m.1 - 1, m.0 - 1);
        m
    }

    /// One learning step on the scratch board `b`: `me` plays at one-based
    /// column `x`, row `y`; the other side answers (see `opponent_replies`);
    /// then the value of that move on the board before it moves toward its
    /// reward plus the discounted value of `me`'s greedy move on the board
    /// reached. Play goes on exactly when the move is legal and `me` can
    /// move after the answer; otherwise no value changes, and an illegal
    /// move changes nothing at all.
    pub fn learn_step(&mut self, b: &mut Vec<Cell>, me: Player, x: i32, y: i32) -> (go_on: bool)
        requires
            old(self).wf(),
            old(b)@.len() == 64,
        ensures
            final(self).wf(),
            final(self).rates == old(self).rates,
            final(b)@.len() == 64,
            keeps_keys(old(self)@, final(self)@),
            go_on == (legal(old(b)@, me, y - 1, x - 1) && has_move(final(b)@, me)),
            !legal(old(b)@, me, y - 1, x - 1) ==> final(b)@ == old(b)@ && final(self)@ == old(self)@,
            legal(old(b)@, me, y - 1, x - 1) ==> final(b)@ == answered(
                old(self)@,
                after_move(old(b)@, me, y - 1, x - 1),
                me,
            ),
            legal(old(b)@, me, y - 1, x - 1) ==> count_cells(final(b)@, Cell::Empty) < count_cells(
                old(b)@,
                Cell::Empty,
            ),
            !go_on ==> forall|key: int| value_of(final(self)@, key) == value_of(old(self)@, key),
            go_on ==> {
                let key0 = entry_key(old(b)@, (x, y));
                let next = entry_key(final(b)@, greedy_choice(old(self)@, final(b)@, me));
                &&& value_of(final(self)@, key0) == td_value(
                    old(self).rates,
                    value_of(old(self)@, key0) as int,
                    reward_for(y - 1, x - 1, total_flips(old(b)@, me, y - 1, x - 1) as int),
                    value_of(old(self)@, next) as int,
                )
                &&& forall|key: int|
                    key != key0 ==> #[trigger] value_of(final(self)@, key) == value_of(old(self)@, key)
            },
    {
        if x < 1 || x > 8 || y < 1 || y > 8 || !is_legal(b, me, y - 1, x - 1) {
            return false;
        }
        let ghost t0 = self@;
        let ghost b0 = b@;
        let code0 = board_code(b);
        proof {
            lemma_move_fills(b@, me, y - 1, x - 1);
            lemma_key_range(b@, (x, y));
        }
        let flips = apply_move(b, me, y - 1, x - 1);
        let reward = move_reward(y - 1, x - 1, flips);
        if !self.opponent_replies(b, me) {
            return false;
        }
        let ghost t1 = self@;
        proof {
            lemma_legal_moves(b@, me);
            lemma_same_values_same_choice(t0, t1, b@, me);
            lemma_with_defaults(t1, b@, legal_moves(b@, me), legal_moves(b@, me).len() as int);
        }
        let next = self.greedy(b, me);
        proof {
            lemma_key_range(b@, next);
        }
        let code = board_code(b);
        let next_value = self.lookup(entry_key_of(code, next));
        let key0 = entry_key_of(code0, (x, y));
        let ghost t2 = self@;
        proof {
            lemma_key_range(b0, (x, y));
            assert(value_of(t2, key0 as int) == value_of(t0, key0 as int));
            assert(next_value == value_of(t0, entry_key(b@, next)));
            lemma_td_bound(self.rates, value_of(t0, key0 as int) as int, reward as int, next_value as int);
            assert(keeps_keys(t0, t2));
        }
        self.td_update(key0, reward, next_value);
        proof {
            assert forall|key: int| key != key0 implies #[trigger] value_of(self@, key) == value_of(
                t0,
                key,
            ) by {
                assert(value_of(t2, key) == value_of(t0, key));
            }
        }
        true
    }

    /// Learns from play that starts with `me` moving at one-based column
    /// `x`, row `y` on a scratch copy of `board`, one `learn_step` after
    /// another, `me` picking each next move epsilon-greedily, until a step
    /// says play does not go on. The board itself is left untouched.
    ///
    /// Whatever is drawn: an illegal first move changes nothing; otherwise
    /// the first move's value gets its temporal-difference update when `me`
    /// can still move after the answer, and keeps it, since every later
    /// step is on a fuller board. No other value of a board at least as
    /// empty as `board` changes, and no entry is removed.
    pub fn learn_from(&mut self, board: &Vec<Cell>, me: Player, x: i32, y: i32)
        requires
            old(self).wf(),
            board@.len() == 64,
        ensures
            final(self).wf(),
            final(self).rates == old(self).rates,
            keeps_keys(old(self)@, final(self)@),
            !legal(board@, me, y - 1, x - 1) ==> final(self)@ == old(self)@,
            legal(board@, me, y - 1, x - 1) && !has_move(
                answered(old(self)@, after_move(board@, me, y - 1, x - 1), me),
                me,
            ) ==> forall|key: int| value_of(final(self)@, key) == value_of(old(self)@, key),
            ({
                let b1 = answered(old(self)@, after_move(board@, me, y - 1, x - 1), me);
                let key0 = entry_key(board@, (x, y));
                legal(board@, me, y - 1, x - 1) && has_move(b1, me) ==> value_of(final(self)@, key0)
                    == td_value(
                    old(self).rates,
                    value_of(old(self)@, key0) as int,
                    reward_for(y - 1, x - 1, total_flips(board@, me, y - 1, x - 1) as int),
                    value_of(old(self)@, entry_key(b1, greedy_choice(old(self)@, b1, me))) as int,
                )
            }),
            forall|s: Seq<Cell>, m: (i32, i32)|
                s.len() == 64 && 1 <= m.0 <= 8 && 1 <= m.1 <= 8 && count_cells(s, Cell::Empty)
                    >= count_cells(board@, Cell::Empty) && entry_key(s, m) != entry_key(board@, (x, y))
                    ==> #[trigger] value_of(final(self)@, entry_key(s, m)) == value_of(
                    old(self)@,
                    entry_key(s, m),
                ),
    {
        let ghost t0 = self@;
        let ghost e0 = count_cells(board@, Cell::Empty);
        let mut b = board.clone();
        assert(b@ =~= board@);
        if !self.learn_step(&mut b, me, x, y) {
            return;
        }
        let ghost t1 = self@;
        let m = self.explore(&b, me);
        let mut x1 = m.0;
        let mut y1 = m.1;
        let mut going = true;
        while going
            invariant
                self.wf(),
                self.rates == old(self).rates,
                keeps_keys(t0, self@),
                b@.len() == 64,
                count_cells(b@, Cell::Empty) < e0,
                later_only(t1, self@, e0),
            decreases count_cells(b@, Cell::Empty) + if going {
                1int
            } else {
                0int
            },
        {
            let ghost tp = self@;
            let ghost bp = b@;
            going = self.learn_step(&mut b, me, x1, y1);
            proof {
                assert forall|key: int| value_of(self@, key) != value_of(t1, key) implies exists|
                    s: Seq<Cell>,
                    m: (i32, i32),
                |
                    s.len() == 64 && 1 <= m.0 <= 8 && 1 <= m.1 <= 8 && count_cells(s, Cell::Empty) < e0
                        && key == #[trigger] entry_key(s, m) by {
                    if value_of(self@, key) != value_of(tp, key) {
                        assert(key == entry_key(bp, (x1, y1)));
                    }
                }
            }
            if going {
                let m = self.explore(&b, me);
                x1 = m.0;
                y1 = m.1;
            }
        }
        proof {
            lemma_later_untouched(t1, self@, e0, board@, (x, y));
            assert forall|s: Seq<Cell>, m: (i32, i32)|
                s.len() == 64 && 1 <= m.0 <= 8 && 1 <= m.1 <= 8 && count_cells(s, Cell::Empty) >= e0
                    && entry_key(s, m) != entry_key(board@, (x, y)) implies #[trigger] value_of(
                self@,
                entry_key(s, m),
            ) == value_of(t0, entry_key(s, m)) by {
                lemma_later_untouched(t1, self@, e0, s, m);
            }
        }
    }

    /// Moves the value under `key` one temporal-difference step toward
    /// `reward + gamma * next`.
    pub fn td_update(&mut self, key: u128, reward: i32, next: u64)
        requires
            old(self).wf(),
            0 <= reward <= MAX_REWARD,
            next <= MAX_VALUE,
        ensures
            final(self).wf(),
            final(self).rates == old(self).rates,
            final(self)@ == old(self)@.insert(
                key,
                td_value(
                    old(self).rates,
                    value_of(old(self)@, key as int) as int,
                    reward as int,
                    next as int,
                ) as u64,
            ),
    {
        let ghost t0 = self@;
        let q = self.lookup(key);
        let a = self.rates.alpha;
        let g = self.rates.gamma;
        proof {
            lemma_td_bound(self.rates, q as int, reward as int, next as int);
            assert(g * next <= 99 * MAX_VALUE) by (nonlinear_arith)
                requires
                    g <= 99,
                    next <= MAX_VALUE,
            ;
            assert((100 - a) * q <= 100 * MAX_VALUE) by (nonlinear_arith)
                requires
                    a <= 100,
                    q <= MAX_VALUE,
            ;
        }
        let target = reward as u64 * SCALE + g * next / 100;
        proof {
            assert(a * target <= 100 * MAX_VALUE) by (nonlinear_arith)
                requires
                    a <= 100,
                    target <= MAX_VALUE,
            ;
        }
        let v = ((100 - a) * q + a * target) / 100;
        self.store(key, v);
        proof {
            assert(self@ =~= t0.insert(key, v));
        }
    }
}

} // verus!
