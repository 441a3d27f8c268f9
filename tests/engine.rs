use std::collections::HashMap;
use std::sync::mpsc;

use chess::action::Action;
use chess::actions::{actions, actions_for_location, any_actions, has_king_of, is_king_attacked, validate_action};
use chess::ui::{get_board_coordinates, Thinker};
use chess::ai::{ai_move, minimax, MoveCache, INF};
use chess::result::{inplace_result, inplace_revert, result};
use chess::state::{Piece, State, PC, PT};
use chess::value::{heuristic, heuristic_action, value, Status};

fn piece(c: PC, t: PT) -> Option<Piece> {
    Some(Piece { c, t })
}

fn king(c: PC) -> Option<Piece> {
    piece(c, PT::King { has_moved: true })
}

fn rook(c: PC) -> Option<Piece> {
    piece(c, PT::Rook { has_moved: true })
}

fn pawn(c: PC) -> Option<Piece> {
    piece(c, PT::Pawn { last_jump: None })
}

/// A position with the given pieces, seen once, `turn` to move.
fn position(pieces: &[(usize, usize, Option<Piece>)], turn: PC) -> State {
    let mut board = [[None; 8]; 8];
    for &(y, x, p) in pieces {
        board[y][x] = p;
    }
    let mut state = State {
        board,
        hash_to_occurences: HashMap::new(),
        turn,
        moves: 10,
        drawn: false,
    };
    let h = state.hash();
    state.hash_to_occurences.insert(h, 1);
    state
}

fn jump(s_y: usize, s_x: usize, e_y: usize, e_x: usize) -> Action {
    Action::Jump { s_y, s_x, e_y, e_x }
}

/// Plays a move read from two squares, checking that it is legal.
fn play(state: &State, from: (usize, usize), to: (usize, usize)) -> State {
    let action = Action::from_context_and_coords(state, from, to, None).expect("a piece to move");
    assert!(validate_action(state, &action), "illegal: {:?}", action);
    result(state, &action)
}

#[test]
fn starting_position_has_twenty_moves() {
    let state = State::new();
    let all = actions(&state);
    assert_eq!(all.len(), 20);
    assert!(any_actions(&state));
    assert_eq!(value(&state), Status::Running);
    let knight = actions_for_location(&state, 7, 1);
    assert_eq!(knight.len(), 2);
    assert!(knight.contains(&jump(7, 1, 5, 0)));
    assert!(knight.contains(&jump(7, 1, 5, 2)));
    assert!(actions_for_location(&state, 7, 0).is_empty());
    assert!(actions_for_location(&state, 0, 1).is_empty());
    assert!(actions_for_location(&state, 9, 1).is_empty());
}

#[test]
fn starting_position_layout() {
    let state = State::new();
    assert_eq!(state.turn, PC::White);
    assert_eq!(state.moves, 0);
    assert!(!state.drawn);
    assert_eq!(state.hash_to_occurences.len(), 1);
    assert_eq!(state.hash_to_occurences.get(&state.hash()), Some(&1));
    assert_eq!(state.board[7][4], piece(PC::White, PT::King { has_moved: false }));
    assert_eq!(state.board[0][3], piece(PC::Black, PT::Queen));
    assert_eq!(state.board[1][5], pawn(PC::Black));
    assert_eq!(state.board[4][4], None);
    let text = state.board_to_string();
    assert_eq!(text.lines().next(), Some("♜ ♞ ♝ ♛ ♚ ♝ ♞ ♜ "));
    assert_eq!(text.lines().nth(3), Some("                "));
    assert_eq!(text.lines().count(), 8);
}

#[test]
fn fingerprint_depends_on_side_to_move() {
    let white = State::new();
    let mut black = State::new();
    black.turn = PC::Black;
    assert_ne!(white.hash(), black.hash());
    let mut moved = State::new();
    moved.board[7][0] = rook(PC::White);
    assert_ne!(white.hash(), moved.hash());
}

#[test]
fn fools_mate() {
    let s = State::new();
    let s = play(&s, (6, 5), (5, 5));
    let s = play(&s, (1, 4), (3, 4));
    let s = play(&s, (6, 6), (4, 6));
    let s = play(&s, (0, 3), (4, 7));
    assert_eq!(value(&s), Status::BlackWin);
    assert!(is_king_attacked(&s, PC::White));
    assert!(!any_actions(&s));
    assert!(actions(&s).is_empty());
    for y in 0..8 {
        for x in 0..8 {
            assert!(actions_for_location(&s, y, x).is_empty());
        }
    }
}

#[test]
fn castling_through_an_attacked_square_is_rejected() {
    let pieces = [
        (7, 4, piece(PC::White, PT::King { has_moved: false })),
        (7, 7, piece(PC::White, PT::Rook { has_moved: false })),
        (0, 0, king(PC::Black)),
        (0, 5, rook(PC::Black)),
    ];
    let state = position(&pieces, PC::White);
    let castle = Action::Castling { s_y: 7, s_x: 4, queenside: false };
    assert_eq!(Action::from_context_and_coords(&state, (7, 4), (7, 6), None), Some(castle));
    assert!(!is_king_attacked(&state, PC::White));
    assert!(!validate_action(&state, &castle));
    assert!(!actions(&state).contains(&castle));

    let mut quiet = pieces;
    quiet[3] = (0, 1, rook(PC::Black));
    let state = position(&quiet, PC::White);
    assert!(validate_action(&state, &castle));
    let after = result(&state, &castle);
    assert_eq!(after.board[7][6], piece(PC::White, PT::King { has_moved: true }));
    assert_eq!(after.board[7][5], piece(PC::White, PT::Rook { has_moved: true }));
    assert_eq!(after.board[7][4], None);
    assert_eq!(after.board[7][7], None);
}

#[test]
fn castling_after_the_king_moved_is_rejected() {
    let pieces = [
        (7, 4, king(PC::White)),
        (7, 0, piece(PC::White, PT::Rook { has_moved: false })),
        (0, 7, king(PC::Black)),
    ];
    let state = position(&pieces, PC::White);
    assert!(!validate_action(&state, &Action::Castling { s_y: 7, s_x: 4, queenside: true }));
}

#[test]
fn en_passant_only_right_after_the_advance() {
    let s = State::new();
    let s = play(&s, (6, 4), (4, 4));
    let s = play(&s, (1, 0), (2, 0));
    let s = play(&s, (4, 4), (3, 4));
    let s = play(&s, (1, 3), (3, 3));
    let capture = Action::Enpassant { s_y: 3, s_x: 4, e_y: 2, e_x: 3 };
    assert_eq!(Action::from_context_and_coords(&s, (3, 4), (2, 3), None), Some(capture));
    assert!(validate_action(&s, &capture));
    assert!(actions(&s).contains(&capture));
    let taken = result(&s, &capture);
    assert_eq!(taken.board[3][3], None);
    assert_eq!(taken.board[2][3], piece(PC::White, PT::Pawn { last_jump: None }));

    let later = play(&s, (6, 7), (5, 7));
    let later = play(&later, (1, 7), (2, 7));
    assert!(!validate_action(&later, &capture));
    assert!(!actions(&later).contains(&capture));
}

#[test]
fn repetition_allows_a_claim_then_draws() {
    let shuffle = [((7, 6), (5, 5)), ((0, 6), (2, 5)), ((5, 5), (7, 6)), ((2, 5), (0, 6))];
    let mut s = State::new();
    for _ in 0..2 {
        for &(from, to) in shuffle.iter() {
            s = play(&s, from, to);
        }
    }
    assert_eq!(s.hash_to_occurences.get(&s.hash()), Some(&3));
    assert!(validate_action(&s, &Action::Tie));
    assert!(actions(&s).contains(&Action::Tie));
    assert!(!s.drawn);
    for _ in 0..2 {
        for &(from, to) in shuffle.iter() {
            s = play(&s, from, to);
        }
    }
    assert_eq!(s.hash_to_occurences.get(&s.hash()), Some(&5));
    assert!(s.drawn);
    assert_eq!(value(&s), Status::Tie);
}

#[test]
fn no_claim_before_three_occurrences() {
    let s = State::new();
    assert!(!validate_action(&s, &Action::Tie));
    assert!(!actions(&s).contains(&Action::Tie));
    let claimed = {
        let mut t = State::new();
        t.hash_to_occurences.insert(t.hash(), 3);
        result(&t, &Action::Tie)
    };
    assert!(claimed.drawn);
    assert_eq!(value(&claimed), Status::Tie);
}

#[test]
fn undo_gives_back_the_position() {
    let mut positions = vec![State::new()];
    let s = play(&State::new(), (6, 4), (4, 4));
    let s = play(&s, (1, 3), (3, 3));
    positions.push(s.clone());
    let castle_ready = position(
        &[
            (7, 4, piece(PC::White, PT::King { has_moved: false })),
            (7, 0, piece(PC::White, PT::Rook { has_moved: false })),
            (1, 6, pawn(PC::White)),
            (0, 4, king(PC::Black)),
            (0, 7, rook(PC::Black)),
        ],
        PC::White,
    );
    positions.push(castle_ready);
    for start in positions {
        let moves = actions(&start);
        assert!(!moves.is_empty());
        for a in moves {
            let mut live = start.clone();
            let record = inplace_result(&mut live, &a);
            assert_eq!(live, result(&start, &a));
            assert_ne!(live, start);
            inplace_revert(&mut live, record);
            assert_eq!(live, start);
            assert_eq!(live.hash(), start.hash());
        }
    }
}

#[test]
fn legal_moves_never_expose_the_king() {
    let pinned = position(
        &[
            (7, 4, king(PC::White)),
            (6, 4, rook(PC::White)),
            (0, 4, rook(PC::Black)),
            (0, 0, king(PC::Black)),
        ],
        PC::White,
    );
    assert!(!validate_action(&pinned, &jump(6, 4, 6, 0)));
    assert!(validate_action(&pinned, &jump(6, 4, 3, 4)));
    for start in [State::new(), pinned] {
        for a in actions(&start) {
            let after = result(&start, &a);
            assert!(!is_king_attacked(&after, start.turn));
        }
    }
}

#[test]
fn promotion_choices() {
    let state = position(
        &[(1, 0, pawn(PC::White)), (7, 4, king(PC::White)), (0, 7, king(PC::Black))],
        PC::White,
    );
    let promos: Vec<Action> = actions_for_location(&state, 1, 0)
        .into_iter()
        .filter(|a| matches!(a, Action::Promotion { .. }))
        .collect();
    assert_eq!(promos.len(), 4);
    let queen = Action::Promotion { s_y: 1, s_x: 0, e_y: 0, e_x: 0, to_piece: PT::Queen };
    assert!(promos.contains(&queen));
    let king_promo = Action::Promotion { s_y: 1, s_x: 0, e_y: 0, e_x: 0, to_piece: PT::King { has_moved: true } };
    assert!(!validate_action(&state, &king_promo));
    let after = result(&state, &queen);
    assert_eq!(after.board[0][0], piece(PC::White, PT::Queen));
    assert_eq!(after.board[1][0], None);

    let black = position(
        &[(6, 3, pawn(PC::Black)), (7, 4, rook(PC::White)), (0, 4, king(PC::White)), (0, 0, king(PC::Black))],
        PC::Black,
    );
    let take = Action::Promotion { s_y: 6, s_x: 3, e_y: 7, e_x: 4, to_piece: PT::Knight };
    assert!(validate_action(&black, &take));
    assert!(actions(&black).contains(&take));
}

#[test]
fn reading_moves_from_squares() {
    let s = State::new();
    assert_eq!(Action::from_context_and_coords(&s, (6, 4), (4, 4), None), Some(jump(6, 4, 4, 4)));
    assert_eq!(Action::from_context_and_coords(&s, (1, 4), (3, 4), None), None);
    assert_eq!(Action::from_context_and_coords(&s, (4, 4), (3, 4), None), None);
    assert_eq!(
        Action::from_context_and_coords(&s, (7, 0), (6, 0), None),
        Some(Action::Capture { s_y: 7, s_x: 0, e_y: 6, e_x: 0 })
    );
    assert_eq!(
        Action::from_context_and_coords(&s, (6, 0), (5, 1), None),
        Some(Action::Enpassant { s_y: 6, s_x: 0, e_y: 5, e_x: 1 })
    );
    assert_eq!(
        Action::from_context_and_coords(&s, (6, 0), (5, 0), Some(PT::Queen)),
        Some(Action::Promotion { s_y: 6, s_x: 0, e_y: 5, e_x: 0, to_piece: PT::Queen })
    );
    assert!(!validate_action(&s, &Action::Capture { s_y: 7, s_x: 0, e_y: 6, e_x: 0 }));
    assert!(!validate_action(&s, &jump(6, 4, 9, 4)));
    assert!(!validate_action(&s, &jump(1, 4, 3, 4)));
    assert_eq!(Action::from_context_and_coords(&s, (8, 4), (4, 4), None), None);
    assert_eq!(Action::from_context_and_coords(&s, (6, 4), (4, 9), None), None);
    assert_eq!(Action::from_context_and_coords(&s, (6, 4), (usize::MAX, 4), Some(PT::Queen)), None);
    let castle = Action::Castling { s_y: 7, s_x: 4, queenside: true };
    assert_eq!(castle.get_main_coords(), (7, 4));
    assert_eq!(castle.get_end_coords(), (7, 2));
    assert_eq!(Action::Castling { s_y: 0, s_x: 4, queenside: false }.get_end_coords(), (0, 6));
    assert_eq!(Action::Tie.get_main_coords(), (0, 0));
    assert_eq!(jump(6, 4, 4, 4).get_main_piece(&s), pawn(PC::White));
}

#[test]
fn notation() {
    let s = State::new();
    assert_eq!(jump(6, 4, 4, 4).to_string(&s), "♙ e2e4");
    assert_eq!(jump(0, 6, 2, 5).to_string(&s), "♞ g8f6");
    assert_eq!(Action::Tie.to_string(&s), "½–½");
    assert_eq!(Action::Castling { s_y: 7, s_x: 4, queenside: false }.to_string(&s), "0-0");
    assert_eq!(Action::Castling { s_y: 7, s_x: 4, queenside: true }.to_string(&s), "0-0-0");
    assert_eq!(Action::Capture { s_y: 7, s_x: 3, e_y: 1, e_x: 3 }.to_string(&s), "♕ d1xd7");
    assert_eq!(Action::Enpassant { s_y: 6, s_x: 4, e_y: 5, e_x: 3 }.to_string(&s), "♙ e2xd3 e.p.");
    let promo = position(&[(1, 1, pawn(PC::White)), (0, 2, rook(PC::Black))], PC::White);
    assert_eq!(
        Action::Promotion { s_y: 1, s_x: 1, e_y: 0, e_x: 2, to_piece: PT::Queen }.to_string(&promo),
        "♙ b7xc8♕"
    );
    assert_eq!(
        Action::Promotion { s_y: 1, s_x: 1, e_y: 0, e_x: 1, to_piece: PT::Knight }.to_string(&promo),
        "♙ b7b8♘"
    );
}

#[test]
fn pieces_and_colours() {
    assert_eq!(PC::White.opponent(), PC::Black);
    assert_eq!(PC::Black.opponent(), PC::White);
    assert_eq!(Piece { c: PC::White, t: PT::King { has_moved: false } }.piece_to_char(), '♔');
    assert_eq!(Piece { c: PC::Black, t: PT::Pawn { last_jump: Some(3) } }.piece_to_char(), '♟');
    assert_eq!(Piece { c: PC::Black, t: PT::Knight }.piece_to_char(), '♞');
}

#[test]
fn scores() {
    let s = State::new();
    assert_eq!(heuristic(&s), 0);
    assert_eq!(heuristic_action(&s, &jump(6, 4, 4, 4)), 40);
    assert_eq!(heuristic_action(&s, &jump(7, 6, 5, 5)), 50);
    assert_eq!(heuristic_action(&s, &Action::Tie), 0);
    let up = play(&s, (6, 4), (4, 4));
    assert_eq!(heuristic(&up), -40);
    let lone = position(&[(4, 4, piece(PC::White, PT::Queen)), (7, 4, king(PC::White)), (0, 4, king(PC::Black))], PC::White);
    assert_eq!(heuristic(&lone), 880 + 5);
    let capture = position(&[(4, 4, piece(PC::White, PT::Queen)), (3, 4, rook(PC::Black)), (7, 4, king(PC::White)), (0, 0, king(PC::Black))], PC::White);
    let a = Action::Capture { s_y: 4, s_x: 4, e_y: 3, e_x: 4 };
    assert_eq!(heuristic_action(&capture, &a), (880 + 5) - (880 + 5) + (510 + 0));
}

fn back_rank_mate() -> State {
    position(
        &[
            (0, 6, king(PC::Black)),
            (1, 5, pawn(PC::Black)),
            (1, 6, pawn(PC::Black)),
            (1, 7, pawn(PC::Black)),
            (7, 0, rook(PC::White)),
            (7, 6, king(PC::White)),
        ],
        PC::White,
    )
}

#[test]
fn search_finds_the_mate_in_one() {
    let (_done_tx, done_rx) = mpsc::channel::<()>();
    for depth in 1..4 {
        let mut state = back_rank_mate();
        let mut cache = MoveCache::default();
        let h = heuristic(&state);
        let found = minimax(&mut state, depth, -INF, INF, h, &done_rx, &mut cache);
        assert_eq!(found, Some((INF, Some(jump(7, 0, 0, 0)))));
        assert_eq!(state, back_rank_mate());
    }
}

#[test]
fn search_finds_the_mate_in_two() {
    let ladder = position(
        &[(0, 7, king(PC::Black)), (6, 0, rook(PC::White)), (5, 1, rook(PC::White)), (7, 4, king(PC::White))],
        PC::White,
    );
    let (_done_tx, done_rx) = mpsc::channel::<()>();
    let mut state = ladder.clone();
    let mut cache = MoveCache::default();
    let h = heuristic(&state);
    let found = minimax(&mut state, 3, -INF, INF, h, &done_rx, &mut cache);
    assert_eq!(found.map(|f| f.0), Some(INF));
    assert_eq!(state, ladder);
}

#[test]
fn search_is_repeatable() {
    let (_done_tx, done_rx) = mpsc::channel::<()>();
    let mut outcomes = Vec::new();
    for _ in 0..2 {
        let mut state = State::new();
        let mut cache = MoveCache::default();
        let h = heuristic(&state);
        outcomes.push(minimax(&mut state, 3, -INF, INF, h, &done_rx, &mut cache));
    }
    assert!(outcomes[0].is_some());
    assert_eq!(outcomes[0], outcomes[1]);
    let best = outcomes[0].unwrap().1.unwrap();
    assert!(validate_action(&State::new(), &best));
}

#[test]
fn search_stops_when_cancelled() {
    let (done_tx, done_rx) = mpsc::channel::<()>();
    done_tx.send(()).unwrap();
    let mut state = State::new();
    let mut cache = MoveCache::default();
    let found = minimax(&mut state, 5, -INF, INF, 0, &done_rx, &mut cache);
    assert_eq!(found, None);
    assert_eq!(state, State::new());
}

#[test]
fn ai_move_streams_one_result_per_depth() {
    let (tx, rx) = mpsc::channel();
    let (_done_tx, done_rx) = mpsc::channel::<()>();
    let mut cache = MoveCache::default();
    ai_move(back_rank_mate(), tx, 3, done_rx, &mut cache);
    let results: Vec<(u32, Action)> = rx.iter().collect();
    assert_eq!(results.len(), 3);
    for (i, (depth, a)) in results.iter().enumerate() {
        assert_eq!(*depth as usize, i + 1);
        assert_eq!(*a, jump(7, 0, 0, 0));
    }
}

#[test]
fn stalemate_is_a_draw() {
    let state = position(
        &[(0, 0, king(PC::Black)), (2, 1, piece(PC::White, PT::Queen)), (7, 7, king(PC::White))],
        PC::Black,
    );
    assert!(!is_king_attacked(&state, PC::Black));
    assert!(!any_actions(&state));
    assert_eq!(value(&state), Status::Tie);
    let mut mover = state.clone();
    mover.turn = PC::White;
    assert_eq!(value(&mover), Status::Running);
}

#[test]
fn search_fills_the_cache() {
    let (_done_tx, done_rx) = mpsc::channel::<()>();
    let mut state = back_rank_mate();
    let mut cache = MoveCache::default();
    let h = heuristic(&state);
    let found = minimax(&mut state, 2, -INF, INF, h, &done_rx, &mut cache);
    let entry = cache.get(&state.hash()).copied();
    assert_eq!(entry, Some((2, INF, Some(jump(7, 0, 0, 0)))));
    assert_eq!(found, Some((INF, Some(jump(7, 0, 0, 0)))));
    let again = minimax(&mut state, 2, -INF, INF, h, &done_rx, &mut cache);
    assert_eq!(again, Some((INF, None)));
}

#[test]
fn leaf_value_at_depth_zero() {
    let (_done_tx, done_rx) = mpsc::channel::<()>();
    let mut state = State::new();
    let mut cache = MoveCache::default();
    assert_eq!(minimax(&mut state, 0, -INF, INF, 1234, &done_rx, &mut cache), Some((1234, None)));
    assert!(cache.is_empty());
}

#[test]
fn window_points_to_squares() {
    assert_eq!(get_board_coordinates((0, 0), 1200), Some((0, 0)));
    assert_eq!(get_board_coordinates((1199, 150), 1200), Some((7, 1)));
    assert_eq!(get_board_coordinates((149, 1050), 1200), Some((0, 7)));
    assert_eq!(get_board_coordinates((1200, 5), 1200), None);
    assert_eq!(get_board_coordinates((5, 4000), 1200), None);
    assert_ne!(Thinker::Player, Thinker::AI);
}

#[test]
fn default_is_the_start() {
    let state = State::default();
    assert_eq!(state, State::new());
    assert!(has_king_of(&state, PC::White));
    assert!(has_king_of(&state, PC::Black));
    let bare = position(&[(0, 0, king(PC::Black))], PC::White);
    assert!(!has_king_of(&bare, PC::White));
    assert!(has_king_of(&bare, PC::Black));
}

#[test]
fn castling_past_an_attacked_rook_square_is_allowed() {
    let pieces = [
        (7, 4, piece(PC::White, PT::King { has_moved: false })),
        (7, 0, piece(PC::White, PT::Rook { has_moved: false })),
        (0, 7, king(PC::Black)),
        (0, 1, rook(PC::Black)),
    ];
    let state = position(&pieces, PC::White);
    let castle = Action::Castling { s_y: 7, s_x: 4, queenside: true };
    assert!(validate_action(&state, &castle));
    assert!(actions(&state).contains(&castle));
    let mut through = pieces;
    through[3] = (0, 3, rook(PC::Black));
    let state = position(&through, PC::White);
    assert!(!validate_action(&state, &castle));
}

#[test]
fn no_draw_claim_while_in_check() {
    let mut state = position(
        &[(7, 4, king(PC::White)), (0, 4, rook(PC::Black)), (0, 0, king(PC::Black))],
        PC::White,
    );
    let h = state.hash();
    state.hash_to_occurences.insert(h, 3);
    assert!(is_king_attacked(&state, PC::White));
    assert!(!validate_action(&state, &Action::Tie));
    assert!(!actions(&state).contains(&Action::Tie));
    state.board[0][4] = None;
    let h = state.hash();
    state.hash_to_occurences.insert(h, 3);
    assert!(validate_action(&state, &Action::Tie));
}

#[test]
fn undo_keeps_a_drawn_game_drawn() {
    let mut start = State::new();
    start.drawn = true;
    for a in actions(&start) {
        let mut live = start.clone();
        let record = inplace_result(&mut live, &a);
        assert!(live.drawn);
        inplace_revert(&mut live, record);
        assert_eq!(live, start);
    }
}
