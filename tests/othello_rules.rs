use tb_othello::board::{apply_move, is_legal, moves_of};
use tb_othello::frame::{outcome, Outcome};
use tb_othello::session::{answer_query, AleAction, Drawable, Input, QueryError};
use tb_othello::learner::{board_code, entry_key_of, QTable, DEFAULT_VALUE};
use tb_othello::{Cell, FrameState, Othello, Player};

/// An empty board with the given stones, as zero-based (row, column, cell).
fn board_with(stones: &[(usize, usize, Cell)]) -> Vec<Cell> {
    let mut b = vec![Cell::Empty; 64];
    for &(r, c, v) in stones {
        b[r * 8 + c] = v;
    }
    b
}

fn opening_with(stones: &[(usize, usize, Cell)]) -> Vec<Cell> {
    let mut b = Othello::default().board;
    for &(r, c, v) in stones {
        b[r * 8 + c] = v;
    }
    b
}

fn frame_for(board: Vec<Cell>, turn: Player) -> FrameState {
    let mut cfg = Othello::default();
    cfg.board = board;
    cfg.turn = turn;
    cfg.new_game().expect("default configuration is well formed").frame
}

fn count(b: &[Cell], v: Cell) -> usize {
    b.iter().filter(|&&c| c == v).count()
}

fn press(button1: bool, right: bool) -> Input {
    Input { right, button1, ..Input::default() }
}

#[test]
fn opening_moves_for_black() {
    let f = frame_for(Othello::default().board, Player::Black);
    assert_eq!(f.terminal(), vec![(5, 3), (6, 4), (3, 5), (4, 6)]);
}

#[test]
fn opening_moves_for_white() {
    let f = frame_for(Othello::default().board, Player::White);
    assert_eq!(f.terminal(), vec![(4, 3), (3, 4), (6, 5), (5, 6)]);
}

#[test]
fn occupied_and_out_of_range_squares_are_illegal() {
    let f = frame_for(Othello::default().board, Player::Black);
    assert!(!f.check_move(4, 4));
    assert!(!f.check_move(0, 3));
    assert!(!f.check_move(9, 3));
    assert!(!f.check_move(5, 0));
    assert!(!f.check_move(i32::MIN, i32::MAX));
    assert!(!f.check_move(1, 1));
}

#[test]
fn validation_twice_gives_same_answer_and_keeps_board() {
    let f = frame_for(Othello::default().board, Player::Black);
    let before = f.board.clone();
    let first = f.check_move(5, 3);
    let second = f.check_move(5, 3);
    assert!(first);
    assert_eq!(first, second);
    assert_eq!(f.board, before);
    let no1 = f.check_move(1, 1);
    let no2 = f.check_move(1, 1);
    assert_eq!(no1, no2);
    assert_eq!(f.board, before);
}

#[test]
fn runs_do_not_wrap_around_row_edges() {
    // A white stone at the start of row 1 sits next to square 7 in flat
    // order, but not on the board.
    let b = board_with(&[(1, 0, Cell::White), (1, 1, Cell::Black)]);
    assert!(!is_legal(&b, Player::Black, 0, 7));
    let b = board_with(&[(0, 7, Cell::White), (0, 6, Cell::Black)]);
    assert!(!is_legal(&b, Player::Black, 1, 0));
    // The same run inside a row is captured.
    let b = board_with(&[(1, 1, Cell::White), (1, 2, Cell::Black)]);
    assert!(is_legal(&b, Player::Black, 1, 0));
}

#[test]
fn open_runs_are_not_captured() {
    // The white run reaches the edge with no black stone behind it.
    let b = board_with(&[(3, 5, Cell::White), (3, 6, Cell::White), (3, 7, Cell::White)]);
    assert!(!is_legal(&b, Player::Black, 3, 4));
    // The white run meets an empty square.
    let b = board_with(&[(3, 5, Cell::White), (3, 7, Cell::Black)]);
    assert!(!is_legal(&b, Player::Black, 3, 4));
}

#[test]
fn capture_in_several_directions() {
    let mut b = board_with(&[
        (3, 4, Cell::White),
        (3, 5, Cell::White),
        (3, 6, Cell::Black),
        (4, 3, Cell::White),
        (5, 3, Cell::Black),
        (4, 4, Cell::White),
        (5, 5, Cell::White),
        (6, 6, Cell::Black),
        (2, 3, Cell::White),
    ]);
    let flips = apply_move(&mut b, Player::Black, 3, 3);
    assert_eq!(flips, 5);
    for &(r, c) in &[(3, 3), (3, 4), (3, 5), (4, 3), (4, 4), (5, 5)] {
        assert_eq!(b[r * 8 + c], Cell::Black);
    }
    // The open run upwards stays white.
    assert_eq!(b[2 * 8 + 3], Cell::White);
}

#[test]
fn move_adds_mover_stones_and_keeps_total() {
    let mut f = frame_for(Othello::default().board, Player::Black);
    let black_before = count(&f.board, Cell::Black);
    let empty_before = count(&f.board, Cell::Empty);
    assert!(f.check_move(5, 3));
    let reward = f.flip_tiles(5, 3);
    assert_eq!(reward, 2);
    assert_eq!(count(&f.board, Cell::Black), black_before + 2);
    assert_eq!(count(&f.board, Cell::Empty), empty_before - 1);
    assert_eq!(f.board[2 * 8 + 4], Cell::Black);
    assert_eq!(f.board[3 * 8 + 4], Cell::Black);
    // The grid shows the new stones one cell in from its border.
    assert_eq!(f.grid[3][5], f.player1_becomes);
    assert_eq!(f.grid[4][5], f.player1_becomes);
}

#[test]
fn corner_capture_earns_top_tier() {
    let mut f = frame_for(
        opening_with(&[(0, 1, Cell::White), (0, 2, Cell::Black)]),
        Player::Black,
    );
    assert!(f.check_move(1, 1));
    let reward = f.flip_tiles(1, 1);
    assert_eq!(reward, 21);
    assert_eq!(f.board[1], Cell::Black);
    // Any inner move of the opening earns less.
    let mut g = frame_for(opening_with(&[(0, 1, Cell::White), (0, 2, Cell::Black)]), Player::Black);
    assert!(g.flip_tiles(5, 3) < reward);
}

#[test]
fn edge_move_earns_middle_tier() {
    let mut f = frame_for(board_with(&[(1, 3, Cell::White), (2, 3, Cell::Black)]), Player::Black);
    assert!(f.check_move(4, 1));
    assert_eq!(f.flip_tiles(4, 1), 6);
}

#[test]
fn x_square_earns_nothing() {
    let b = board_with(&[
        (2, 2, Cell::White),
        (3, 3, Cell::White),
        (4, 4, Cell::Black),
        (1, 2, Cell::White),
        (1, 3, Cell::Black),
    ]);
    let mut f = frame_for(b, Player::Black);
    assert!(f.check_move(2, 2));
    let reward = f.flip_tiles(2, 2);
    assert_eq!(reward, 0);
    assert_eq!(count(&f.board, Cell::Black), 6);
    assert_eq!(count(&f.board, Cell::White), 0);
}

/// White's only stones are a blocked corner and two edge stones that White
/// cannot use; Black can take either edge stone.
fn white_stuck_board() -> Vec<Cell> {
    let mut stones = vec![(0, 0, Cell::White), (2, 7, Cell::White), (7, 2, Cell::White)];
    for i in 1..8 {
        stones.push((0, i, Cell::Black));
        stones.push((i, 0, Cell::Black));
        stones.push((i, i, Cell::Black));
    }
    stones.push((7, 1, Cell::Black));
    stones.push((1, 7, Cell::Black));
    board_with(&stones)
}

#[test]
fn forced_pass_keeps_turn() {
    let mut f = frame_for(white_stuck_board(), Player::Black);
    let mut w = frame_for(white_stuck_board(), Player::White);
    assert!(w.terminal().is_empty());
    assert_eq!(f.terminal(), vec![(8, 4), (4, 8)]);
    f.flip_tiles(8, 4);
    let result = f.change_turn();
    assert_eq!(result, None);
    assert_eq!(f.turn, Player::Black);
    assert!(!f.game_over);
    w.board = f.board.clone();
    assert!(w.terminal().is_empty());
}

#[test]
fn turn_passes_when_opponent_can_move() {
    let mut f = frame_for(Othello::default().board, Player::Black);
    f.flip_tiles(5, 3);
    assert_eq!(f.change_turn(), None);
    assert_eq!(f.turn, Player::White);
}

#[test]
fn game_over_black_wins() {
    let mut f = frame_for(
        board_with(&[(0, 0, Cell::Black), (0, 7, Cell::Black), (7, 7, Cell::White)]),
        Player::Black,
    );
    assert_eq!(f.change_turn(), Some(Outcome::BlackWins));
    assert!(f.game_over);
}

#[test]
fn game_over_white_wins() {
    let mut f = frame_for(
        board_with(&[(0, 0, Cell::White), (0, 7, Cell::White), (7, 7, Cell::Black)]),
        Player::White,
    );
    assert_eq!(f.change_turn(), Some(Outcome::WhiteWins));
    assert!(f.game_over);
}

#[test]
fn game_over_tie() {
    let mut f = frame_for(board_with(&[(0, 0, Cell::Black), (7, 7, Cell::White)]), Player::Black);
    assert_eq!(f.change_turn(), Some(Outcome::Tie));
    assert!(f.game_over);
    assert_eq!(f.turn, Player::Black);
    assert_eq!(outcome(&f.board), Outcome::Tie);
}

#[test]
fn full_board_counts_stones() {
    let mut b = vec![Cell::White; 64];
    for j in 0..33 {
        b[j] = Cell::Black;
    }
    assert_eq!(outcome(&b), Outcome::BlackWins);
    let mut f = frame_for(b, Player::White);
    assert_eq!(f.change_turn(), Some(Outcome::BlackWins));
}

#[test]
fn greedy_move_prefers_highest_value() {
    let mut f = frame_for(Othello::default().board, Player::Black);
    let code = board_code(&f.board);
    f.q_table.entries.insert(entry_key_of(code, (3, 5)), 5000);
    f.q_table.entries.insert(entry_key_of(code, (6, 4)), 4000);
    assert_eq!(f.get_greedy_move(true), (3, 5));
    // The other moves were looked up and got the default value.
    assert_eq!(f.q_table.entries.get(&entry_key_of(code, (5, 3))), Some(&DEFAULT_VALUE));
    assert_eq!(f.q_table.entries.get(&entry_key_of(code, (4, 6))), Some(&DEFAULT_VALUE));
}

#[test]
fn greedy_move_takes_first_of_equals() {
    let mut f = frame_for(Othello::default().board, Player::Black);
    assert_eq!(f.get_greedy_move(true), (5, 3));
}

#[test]
fn select_move_explores_below_epsilon() {
    let b = Othello::default().board;
    let mut t = QTable::new();
    assert_eq!(t.select_move(&b, Player::Black, 0, 2), (3, 5));
    assert!(t.entries.is_empty());
    assert_eq!(t.select_move(&b, Player::Black, 19, 3), (4, 6));
    assert_eq!(t.select_move(&b, Player::Black, 20, 3), (5, 3));
    assert_eq!(t.entries.len(), 4);
}

#[test]
fn random_choice_is_legal() {
    let mut f = frame_for(Othello::default().board, Player::Black);
    for _ in 0..50 {
        let (x, y) = f.get_greedy_move(false);
        assert!(f.check_move(x, y));
    }
}

#[test]
fn td_update_moves_toward_target() {
    let mut t = QTable::new();
    t.td_update(7, 20, 1000);
    // 0.8 * 1.0 + 0.2 * (20 + 0.8 * 1.0) = 4.96
    assert_eq!(t.entries.get(&7), Some(&4960));
    t.td_update(7, 0, 0);
    // 0.8 * 4.96
    assert_eq!(t.entries.get(&7), Some(&3968));
}

#[test]
fn table_values_above_bound_are_read_as_bound() {
    let mut t = QTable::new();
    t.entries.insert(3, u64::MAX);
    assert_eq!(t.lookup(3), 1_000_000_000);
    assert_eq!(t.lookup(4), DEFAULT_VALUE);
    assert_eq!(t.entries.get(&4), Some(&DEFAULT_VALUE));
}

#[test]
fn learning_prefers_the_better_move() {
    // White to move may take the corner or play an inner square.
    let start = opening_with(&[(0, 1, Cell::Black), (0, 2, Cell::White)]);
    let mut f = frame_for(start.clone(), Player::White);
    assert!(f.check_move(1, 1));
    assert!(f.check_move(4, 3));
    let code = board_code(&start);
    let corner = entry_key_of(code, (1, 1));
    let inner = entry_key_of(code, (4, 3));
    for _ in 0..5 {
        f.update_qtable(1, 1);
        f.update_qtable(4, 3);
    }
    assert_eq!(f.board, start);
    let c = *f.q_table.entries.get(&corner).expect("corner value learned");
    let i = *f.q_table.entries.get(&inner).expect("inner value learned");
    assert!(c > i, "corner {} inner {}", c, i);
}

#[test]
fn learning_leaves_the_session_alone() {
    let mut f = frame_for(Othello::default().board, Player::White);
    let grid = f.grid.clone();
    f.update_qtable(4, 3);
    assert_eq!(f.board, Othello::default().board);
    assert_eq!(f.grid, grid);
    assert_eq!(f.turn, Player::White);
    assert!(!f.q_table.entries.is_empty());
}

#[test]
fn board_codes_differ_by_position() {
    let a = Othello::default().board;
    let mut b = a.clone();
    b[0] = Cell::Black;
    assert_ne!(board_code(&a), board_code(&b));
    assert_eq!(board_code(&vec![Cell::Empty; 64]), 0);
    assert_eq!(entry_key_of(1, (2, 1)), 65);
}

#[test]
fn default_config_starts_a_game() {
    let cfg = Othello::default();
    let st = cfg.new_game().expect("well formed");
    assert_eq!(st.frame.turn, Player::Black);
    assert_eq!(st.frame.player, (1, 1));
    assert_eq!(st.frame.step, 0);
    assert_eq!(st.lives(), 1);
    assert_eq!(st.score(), 0);
    assert_eq!(st.level(), 0);
    assert_eq!(cfg.game_size(), (10, 10));
    assert_eq!(st.frame.size(), (10, 10));
    assert_eq!(st.frame.tiles.len(), 6);
    assert_eq!(st.frame.grid[0][0], 3);
    assert_eq!(st.frame.grid[4][4], 1);
}

#[test]
fn bad_config_is_refused() {
    let mut cfg = Othello::default();
    cfg.grid[3] = "30404x4043".to_string();
    assert!(cfg.new_game().is_none());
    let mut cfg = Othello::default();
    cfg.board.pop();
    assert!(cfg.new_game().is_none());
    let mut cfg = Othello::default();
    cfg.grid.truncate(5);
    assert!(cfg.new_game().is_none());
    let mut cfg = Othello::default();
    cfg.player2_becomes = '9';
    assert!(FrameState::from_config(&cfg).is_none());
}

#[test]
fn legal_actions_are_sorted() {
    assert_eq!(
        Othello::default().legal_action_set(),
        vec![
            AleAction::NOOP,
            AleAction::FIRE,
            AleAction::UP,
            AleAction::RIGHT,
            AleAction::LEFT,
            AleAction::DOWN
        ]
    );
}

#[test]
fn queries_report_cursor_and_step() {
    let st = Othello::default().new_game().unwrap();
    let args = serde_json::Value::Null;
    assert_eq!(st.query_json("xy", &args).unwrap(), "[1,1]");
    assert_eq!(st.query_json("xyt", &args).unwrap(), "[1,1,0]");
    assert!(matches!(st.query_json("lives", &args), Err(QueryError::NoSuchQuery)));
    assert!(matches!(st.query_json("x", &args), Err(QueryError::NoSuchQuery)));
}

#[test]
fn cursor_walks_on_floor_only() {
    let mut f = Othello::default().new_game().unwrap().frame;
    f.walk_once(0, -1);
    assert_eq!(f.player, (1, 1));
    f.walk_once(1, 0);
    assert_eq!(f.player, (2, 1));
    assert!(f.walkable(8, 8));
    assert!(!f.walkable(9, 8));
    assert!(!f.walkable(-1, 0));
    assert!(f.get_tile(10, 0).is_none());
    assert_eq!(f.get_tile(0, 0).unwrap().walkable, false);
}

#[test]
fn frame_without_buttons_changes_nothing() {
    let mut st = Othello::default().new_game().unwrap();
    st.update_mut(Input::default());
    assert_eq!(st.frame.step, 0);
    assert_eq!(st.frame.player, (1, 1));
    assert_eq!(st.frame.board, Othello::default().board);
}

#[test]
fn illegal_placement_is_rejected() {
    let mut st = Othello::default().new_game().unwrap();
    st.update_mut(press(true, true));
    assert_eq!(st.frame.step, 1);
    assert_eq!(st.frame.board, Othello::default().board);
    assert_eq!(st.frame.turn, Player::Black);
    // The frame ended before the cursor moved.
    assert_eq!(st.frame.player, (1, 1));
}

#[test]
fn placement_scores_and_opponent_answers() {
    let mut st = Othello::default().new_game().unwrap();
    st.frame.player = (5, 3);
    st.update_mut(press(true, false));
    assert_eq!(st.frame.score, 2);
    assert_eq!(st.frame.turn, Player::White);
    assert_eq!(count(&st.frame.board, Cell::Black), 4);
    st.update_mut(press(false, true));
    assert_eq!(st.frame.turn, Player::Black);
    assert_eq!(count(&st.frame.board, Cell::Empty), 58);
    assert_eq!(st.frame.player, (6, 3));
    assert_eq!(st.frame.step, 2);
}

#[test]
fn drawing_covers_grid_then_cursor() {
    let st = Othello::default().new_game().unwrap();
    let out = st.draw();
    assert_eq!(out.len(), 102);
    assert!(matches!(out[0], Drawable::Clear(_)));
    match out[101] {
        Drawable::Rect { x, y, w, h, color } => {
            assert_eq!((x, y, w, h), (1, 1, 1, 1));
            assert_eq!(color, st.config.player_color);
        }
        _ => panic!("cursor expected last"),
    }
    match out[1 + 4 * 10 + 4] {
        Drawable::Rect { x, y, color, .. } => {
            assert_eq!((x, y), (4, 4));
            assert_eq!(color, st.frame.tiles[1].color);
        }
        _ => panic!("tile expected"),
    }
}

#[test]
fn game_over_state_has_no_lives() {
    let mut st = Othello::default().new_game().unwrap();
    st.frame.board = board_with(&[(0, 0, Cell::Black)]);
    st.frame.change_turn();
    assert_eq!(st.lives(), 0);
    let copy = st.copy();
    assert_eq!(copy.frame.board, st.frame.board);
}

#[test]
fn moves_list_matches_validator() {
    let b = opening_with(&[(0, 1, Cell::White), (0, 2, Cell::Black)]);
    let ms = moves_of(&b, Player::Black);
    for r in 0..8 {
        for c in 0..8 {
            let listed = ms.contains(&(c + 1, r + 1));
            assert_eq!(listed, is_legal(&b, Player::Black, r, c));
        }
    }
}

#[test]
fn board_prints_as_digits() {
    let text = tb_othello::board::board_text(&Othello::default().board);
    let lines: Vec<&str> = text.lines().collect();
    assert_eq!(lines.len(), 10);
    assert_eq!(lines[0], "    0 1 2 3 4 5 6 7");
    assert_eq!(lines[1], "   ----------------");
    assert_eq!(lines[2], "0 | 0 0 0 0 0 0 0 0 ");
    assert_eq!(lines[5], "3 | 0 0 0 1 2 0 0 0 ");
    assert_eq!(lines[6], "4 | 0 0 0 2 1 0 0 0 ");
    assert!(text.ends_with("7 | 0 0 0 0 0 0 0 0 \n"));
}

#[test]
fn frame_validity_check() {
    let mut f = Othello::default().new_game().unwrap().frame;
    assert!(f.is_valid());
    f.grid[2][3] = 6;
    assert!(!f.is_valid());
    let mut g = Othello::default().new_game().unwrap().frame;
    g.grid[4].pop();
    assert!(!g.is_valid());
    let mut h = Othello::default().new_game().unwrap().frame;
    h.q_table.rates.gamma = 100;
    assert!(!h.is_valid());
}

#[test]
fn learning_step_updates_the_move_played() {
    let start = opening_with(&[(0, 1, Cell::Black), (0, 2, Cell::White)]);
    let mut t = QTable::new();
    let mut b = start.clone();
    assert!(t.learn_step(&mut b, Player::White, 1, 1));
    // 0.8 * 1.0 + 0.2 * (21 + 0.8 * 1.0) = 5.16
    let key = entry_key_of(board_code(&start), (1, 1));
    assert_eq!(t.entries.get(&key), Some(&5160));
    // White's move and Black's answer.
    assert_eq!(count(&b, Cell::Empty), 56);
}

#[test]
fn learning_step_refuses_illegal_move() {
    let start = Othello::default().board;
    let mut t = QTable::new();
    let mut b = start.clone();
    assert!(!t.learn_step(&mut b, Player::White, 1, 1));
    assert!(!t.learn_step(&mut b, Player::White, 0, 9));
    assert_eq!(b, start);
    assert!(t.entries.is_empty());
}

#[test]
fn opponent_replies_until_learner_can_move() {
    let mut t = QTable::new();
    let mut b = Othello::default().board;
    assert!(t.opponent_replies(&mut b, Player::White));
    assert_eq!(count(&b, Cell::Empty), 59);
    assert_eq!(count(&b, Cell::Black), 4);
    let mut stuck = board_with(&[(0, 0, Cell::Black), (7, 7, Cell::White)]);
    assert!(!t.opponent_replies(&mut stuck, Player::White));
}

#[test]
fn finished_game_accepts_nothing() {
    let mut st = Othello::default().new_game().unwrap();
    st.frame.game_over = true;
    st.frame.player = (5, 3);
    st.update_mut(press(true, true));
    assert_eq!(st.frame.step, 0);
    assert_eq!(st.frame.player, (5, 3));
    assert_eq!(st.frame.board, Othello::default().board);
    assert_eq!(st.frame.score, 0);
    assert!(st.frame.game_over);
}

#[test]
fn cursor_steps_by_any_offset() {
    let mut f = Othello::default().new_game().unwrap().frame;
    f.walk_once(2, 0);
    assert_eq!(f.player, (3, 1));
    f.walk_once(i32::MAX, 0);
    assert_eq!(f.player, (3, 1));
    f.walk_once(-3, 0);
    assert_eq!(f.player, (3, 1));
    f.walk_once(5, 7);
    assert_eq!(f.player, (8, 8));
}

#[test]
fn query_text_handles_signs_and_large_numbers() {
    assert_eq!(answer_query("xy", -3, 12, 0).unwrap(), "[-3,12]");
    assert_eq!(answer_query("xyt", 0, -1, usize::MAX).unwrap(), format!("[0,-1,{}]", usize::MAX));
}

#[test]
fn new_game_copies_the_table() {
    let mut cfg = Othello::default();
    cfg.q_table.entries.insert(42, 7000);
    let st = cfg.new_game().unwrap();
    assert_eq!(st.frame.q_table.entries.get(&42), Some(&7000));
    assert_eq!(st.config.q_table.entries.get(&42), Some(&7000));
    let copy = st.copy();
    assert_eq!(copy.frame.q_table.entries, st.frame.q_table.entries);
    assert_eq!(copy.frame.grid, st.frame.grid);
    assert_eq!(copy.config.grid, st.config.grid);
}

#[test]
fn illegal_start_leaves_table_alone() {
    let mut f = frame_for(Othello::default().board, Player::White);
    f.q_table.entries.insert(5, 1234);
    let before = f.q_table.entries.clone();
    f.update_qtable(1, 1);
    assert_eq!(f.q_table.entries, before);
}
