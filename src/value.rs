//! Evaluation: the game status, a static score of a position in
//! centipawns (material plus a per-kind table of squares) from the side to
//! move's view, and the change in that score that one move makes.
use vstd::prelude::*;
use crate::action::Action;
use crate::actions::{any_actions, has_king, is_king_attacked, king_attacked, legal, valid_ignoring_check};
use crate::state::{Piece, State, PC, PT};

verus! {

#[derive(Debug, PartialEq, Eq, Clone, Copy, Structural)]
pub enum Status {
    Running,
    BlackWin,
    Tie,
    WhiteWin,
}

/// The status of a game: drawn when the flag is set; running while the side
/// to move has a legal move; else won by the other side when the mover's
/// king is attacked (checkmate), and drawn otherwise (stalemate).
pub open spec fn status_of(s: State) -> Status {
    if s.drawn {
        Status::Tie
    } else if exists|a: Action| legal(s, a) {
        Status::Running
    } else if king_attacked(s.grid(), s.turn) {
        match s.turn.other() {
            PC::Black => Status::BlackWin,
            PC::White => Status::WhiteWin,
        }
    } else {
        Status::Tie
    }
}

pub fn value(state: &State) -> (r: Status)
    requires
        has_king(state.grid(), state.turn),
    ensures
        r == status_of(*state),
{
    if state.drawn {
        return Status::Tie;
    }
    let actions_empty = !any_actions(state);
    if !actions_empty {
        Status::Running
    } else {
        let king_attacked = is_king_attacked(state, state.turn);
        if king_attacked {
            match state.turn.opponent() {
                PC::Black => Status::BlackWin,
                PC::White => Status::WhiteWin,
            }
        } else {
            Status::Tie
        }
    }
}

pub open spec fn pawn_table() -> Seq<Seq<int>> {
    seq![
        seq![ 0 ,  0,  0,  0,  0,  0,  0,  0],
        seq![ 50, 50, 50, 50, 50, 50, 50, 50],
        seq![ 10, 10, 20, 30, 30, 20, 10, 10],
        seq![ 5 ,  5, 10, 25, 25, 10,  5,  5],
        seq![ 0 ,  0,  0, 20, 20,  0,  0,  0],
        seq![ 5 , -5,-10,  0,  0,-10, -5,  5],
        seq![ 5 , 10, 10,-20,-20, 10, 10,  5],
        seq![ 0 ,  0,  0,  0,  0,  0,  0,  0],
    ]
}

fn pawn_square(i: usize, j: usize) -> (r: i64)
    requires
        i < 8,
        j < 8,
    ensures
        r == pawn_table()[i as int][j as int],
{
    let t: [[i64; 8]; 8] = [
        [ 0 ,  0,  0,  0,  0,  0,  0,  0],
        [ 50, 50, 50, 50, 50, 50, 50, 50],
        [ 10, 10, 20, 30, 30, 20, 10, 10],
        [ 5 ,  5, 10, 25, 25, 10,  5,  5],
        [ 0 ,  0,  0, 20, 20,  0,  0,  0],
        [ 5 , -5,-10,  0,  0,-10, -5,  5],
        [ 5 , 10, 10,-20,-20, 10, 10,  5],
        [ 0 ,  0,  0,  0,  0,  0,  0,  0],
    ];
    t[i][j]
}

pub open spec fn knight_table() -> Seq<Seq<int>> {
    seq![
        seq![-50,-40,-30,-30,-30,-30,-40,-50],
        seq![-40,-20,  0,  0,  0,  0,-20,-40],
        seq![-30,  0, 10, 15, 15, 10,  0,-30],
        seq![-30,  5, 15, 20, 20, 15,  5,-30],
        seq![-30,  0, 15, 20, 20, 15,  0,-30],
        seq![-30,  5, 10, 15, 15, 10,  5,-30],
        seq![-40,-20,  0,  5,  5,  0,-20,-40],
        seq![-50,-40,-30,-30,-30,-30,-40,-50],
    ]
}

fn knight_square(i: usize, j: usize) -> (r: i64)
    requires
        i < 8,
        j < 8,
    ensures
        r == knight_table()[i as int][j as int],
{
    let t: [[i64; 8]; 8] = [
        [-50,-40,-30,-30,-30,-30,-40,-50],
        [-40,-20,  0,  0,  0,  0,-20,-40],
        [-30,  0, 10, 15, 15, 10,  0,-30],
        [-30,  5, 15, 20, 20, 15,  5,-30],
        [-30,  0, 15, 20, 20, 15,  0,-30],
        [-30,  5, 10, 15, 15, 10,  5,-30],
        [-40,-20,  0,  5,  5,  0,-20,-40],
        [-50,-40,-30,-30,-30,-30,-40,-50],
    ];
    t[i][j]
}

pub open spec fn bishop_table() -> Seq<Seq<int>> {
    seq![
        seq![ 20,-10,-10,-10,-10,-10,-10,-20],
        seq![ 10,  0,  0,  0,  0,  0,  0,-10],
        seq![ 10,  0,  5, 10, 10,  5,  0,-10],
        seq![ 10,  5,  5, 10, 10,  5,  5,-10],
        seq![ 10,  0, 10, 10, 10, 10,  0,-10],
        seq![ 10, 10, 10, 10, 10, 10, 10,-10],
        seq![ 10,  5,  0,  0,  0,  0,  5,-10],
        seq![ 20,-10,-10,-10,-10,-10,-10,-20],
    ]
}

fn bishop_square(i: usize, j: usize) -> (r: i64)
    requires
        i < 8,
        j < 8,
    ensures
        r == bishop_table()[i as int][j as int],
{
    let t: [[i64; 8]; 8] = [
        [ 20,-10,-10,-10,-10,-10,-10,-20],
        [ 10,  0,  0,  0,  0,  0,  0,-10],
        [ 10,  0,  5, 10, 10,  5,  0,-10],
        [ 10,  5,  5, 10, 10,  5,  5,-10],
        [ 10,  0, 10, 10, 10, 10,  0,-10],
        [ 10, 10, 10, 10, 10, 10, 10,-10],
        [ 10,  5,  0,  0,  0,  0,  5,-10],
        [ 20,-10,-10,-10,-10,-10,-10,-20],
    ];
    t[i][j]
}

pub open spec fn rook_table() -> Seq<Seq<int>> {
    seq![
        seq![  0,  0,  0,  0,  0,  0,  0,  0],
        seq![  5, 10, 10, 10, 10, 10, 10,  5],
        seq![ -5,  0,  0,  0,  0,  0,  0, -5],
        seq![ -5,  0,  0,  0,  0,  0,  0, -5],
        seq![ -5,  0,  0,  0,  0,  0,  0, -5],
        seq![ -5,  0,  0,  0,  0,  0,  0, -5],
        seq![ -5,  0,  0,  0,  0,  0,  0, -5],
        seq![  0,  0,  0,  5,  5,  0,  0,  0],
    ]
}

fn rook_square(i: usize, j: usize) -> (r: i64)
    requires
        i < 8,
        j < 8,
    ensures
        r == rook_table()[i as int][j as int],
{
    let t: [[i64; 8]; 8] = [
        [  0,  0,  0,  0,  0,  0,  0,  0],
        [  5, 10, 10, 10, 10, 10, 10,  5],
        [ -5,  0,  0,  0,  0,  0,  0, -5],
        [ -5,  0,  0,  0,  0,  0,  0, -5],
        [ -5,  0,  0,  0,  0,  0,  0, -5],
        [ -5,  0,  0,  0,  0,  0,  0, -5],
        [ -5,  0,  0,  0,  0,  0,  0, -5],
        [  0,  0,  0,  5,  5,  0,  0,  0],
    ];
    t[i][j]
}

pub open spec fn queen_table() -> Seq<Seq<int>> {
    seq![
        seq![-20,-10,-10, -5, -5,-10,-10,-20],
        seq![-10,  0,  0,  0,  0,  0,  0,-10],
        seq![-10,  0,  5,  5,  5,  5,  0,-10],
        seq![ -5,  0,  5,  5,  5,  5,  0, -5],
        seq![  0,  0,  5,  5,  5,  5,  0, -5],
        seq![-10,  5,  5,  5,  5,  5,  0,-10],
        seq![-10,  0,  5,  0,  0,  0,  0,-10],
        seq![-20,-10,-10, -5, -5,-10,-10,-20],
    ]
}

fn queen_square(i: usize, j: usize) -> (r: i64)
    requires
        i < 8,
        j < 8,
    ensures
        r == queen_table()[i as int][j as int],
{
    let t: [[i64; 8]; 8] = [
        [-20,-10,-10, -5, -5,-10,-10,-20],
        [-10,  0,  0,  0,  0,  0,  0,-10],
        [-10,  0,  5,  5,  5,  5,  0,-10],
        [ -5,  0,  5,  5,  5,  5,  0, -5],
        [  0,  0,  5,  5,  5,  5,  0, -5],
        [-10,  5,  5,  5,  5,  5,  0,-10],
        [-10,  0,  5,  0,  0,  0,  0,-10],
        [-20,-10,-10, -5, -5,-10,-10,-20],
    ];
    t[i][j]
}

pub open spec fn king_table() -> Seq<Seq<int>> {
    seq![
        seq![-30,-40,-40,-50,-50,-40,-40,-30],
        seq![-30,-40,-40,-50,-50,-40,-40,-30],
        seq![-30,-40,-40,-50,-50,-40,-40,-30],
        seq![-30,-40,-40,-50,-50,-40,-40,-30],
        seq![-20,-30,-30,-40,-40,-30,-30,-20],
        seq![-10,-20,-20,-20,-20,-20,-20,-10],
        seq![ 20, 20,  0,  0,  0,  0, 20, 20],
        seq![ 20, 30, 10,  0,  0, 10, 30, 20],
    ]
}

fn king_square(i: usize, j: usize) -> (r: i64)
    requires
        i < 8,
        j < 8,
    ensures
        r == king_table()[i as int][j as int],
{
    let t: [[i64; 8]; 8] = [
        [-30,-40,-40,-50,-50,-40,-40,-30],
        [-30,-40,-40,-50,-50,-40,-40,-30],
        [-30,-40,-40,-50,-50,-40,-40,-30],
        [-30,-40,-40,-50,-50,-40,-40,-30],
        [-20,-30,-30,-40,-40,-30,-30,-20],
        [-10,-20,-20,-20,-20,-20,-20,-10],
        [ 20, 20,  0,  0,  0,  0, 20, 20],
        [ 20, 30, 10,  0,  0, 10, 30, 20],
    ];
    t[i][j]
}

/// The material weight of a kind, in centipawns.
pub open spec fn worth(t: PT) -> int {
    match t {
        PT::Pawn { .. } => 100,
        PT::Knight => 320,
        PT::Bishop => 333,
        PT::Rook { .. } => 510,
        PT::Queen => 880,
        PT::King { .. } => 10000000,
    }
}

pub open spec fn table_of(t: PT) -> Seq<Seq<int>> {
    match t {
        PT::Pawn { .. } => pawn_table(),
        PT::Knight => knight_table(),
        PT::Bishop => bishop_table(),
        PT::Rook { .. } => rook_table(),
        PT::Queen => queen_table(),
        PT::King { .. } => king_table(),
    }
}

/// The positional bonus of a piece on (i, j); the tables are written for
/// `White` and mirrored top to bottom for `Black`.
pub open spec fn position_worth(c: PC, t: PT, i: int, j: int) -> int {
    match c {
        PC::Black => table_of(t)[7 - i][j],
        PC::White => table_of(t)[i][j],
    }
}

pub open spec fn piece_score(p: Piece, i: int, j: int) -> int {
    worth(p.t) + position_worth(p.c, p.t, i, j)
}

/// The largest score a single piece can have.
pub const MAX_PIECE_SCORE: i64 = 10000050;

fn piece_worth(pt: PT) -> (r: i64)
    ensures
        r == worth(pt),
{
    match pt {
        PT::Pawn { .. } => 100,
        PT::Knight => 320,
        PT::Bishop => 333,
        PT::Rook { .. } => 510,
        PT::Queen => 880,
        PT::King { .. } => 10000000,
    }
}

fn piece_position_worth(pc: PC, pt: PT, i: usize, j: usize) -> (r: i64)
    requires
        i < 8,
        j < 8,
    ensures
        r == position_worth(pc, pt, i as int, j as int),
        -50 <= r <= 50,
{
    let row = match pc {
        PC::Black => 7 - i,
        PC::White => i,
    };
    match pt {
        PT::Pawn { .. } => pawn_square(row, j),
        PT::Knight => knight_square(row, j),
        PT::Bishop => bishop_square(row, j),
        PT::Rook { .. } => rook_square(row, j),
        PT::Queen => queen_square(row, j),
        PT::King { .. } => king_square(row, j),
    }
}

fn piece_value(p: &Piece, i: usize, j: usize) -> (r: i64)
    requires
        i < 8,
        j < 8,
    ensures
        r == piece_score(*p, i as int, j as int),
        0 < r <= MAX_PIECE_SCORE,
{
    piece_worth(p.t) + piece_position_worth(p.c, p.t, i, j)
}

/// The score of the first `k` squares in row-major order: the mover's
/// pieces count for, the opponent's against.
pub open spec fn score_prefix(s: State, k: nat) -> int
    decreases k,
{
    if k == 0 {
        0
    } else {
        let j = k - 1;
        let rest = score_prefix(s, j as nat);
        match s.at(j / 8, j % 8) {
            None => rest,
            Some(p) => if p.c == s.turn {
                rest + piece_score(p, j / 8, j % 8)
            } else {
                rest - piece_score(p, j / 8, j % 8)
            },
        }
    }
}

/// The static score of a position from the side to move's view.
pub open spec fn static_score(s: State) -> int {
    score_prefix(s, 64)
}

pub fn heuristic(state: &State) -> (r: i64)
    ensures
        r == static_score(*state),
        -64 * MAX_PIECE_SCORE <= r <= 64 * MAX_PIECE_SCORE,
{
    let mut value: i64 = 0;
    let mut k: usize = 0;
    while k < 64
        invariant
            k <= 64,
            value == score_prefix(*state, k as nat),
            -(k as int) * MAX_PIECE_SCORE <= value <= (k as int) * MAX_PIECE_SCORE,
        decreases 64 - k,
    {
        if let Some(p) = state.board[k / 8][k % 8] {
            if p.c == state.turn {
                value = value + piece_value(&p, k / 8, k % 8);
            } else {
                value = value - piece_value(&p, k / 8, k % 8);
            }
        }
        k = k + 1;
    }
    value
}

/// The change in the mover's static score that move `a` makes: the moving
/// piece's change of square, plus what it captures, plus the rook's move in
/// castling; a promotion swaps the pawn for the new piece.
pub open spec fn action_delta(s: State, a: Action) -> int {
    let (sy, sx) = a.main_coords();
    let m = s.at(sy as int, sx as int)->0;
    match a {
        Action::Jump { s_y, s_x, e_y, e_x } => piece_score(m, e_y as int, e_x as int) - piece_score(
            m,
            s_y as int,
            s_x as int,
        ),
        Action::Capture { s_y, s_x, e_y, e_x } => piece_score(m, e_y as int, e_x as int)
            - piece_score(m, s_y as int, s_x as int) + piece_score(
            s.at(e_y as int, e_x as int)->0,
            e_y as int,
            e_x as int,
        ),
        Action::Castling { s_y, queenside, .. } => {
            let y = s_y as int;
            if queenside {
                let rook = s.at(y, 0)->0;
                piece_score(m, y, 2) - piece_score(m, y, 4) + piece_score(rook, y, 3)
                    - piece_score(rook, y, 0)
            } else {
                let rook = s.at(y, 7)->0;
                piece_score(m, y, 6) - piece_score(m, y, 4) + piece_score(rook, y, 5)
                    - piece_score(rook, y, 7)
            }
        },
        Action::Promotion { s_y, s_x, e_y, e_x, to_piece } => {
            let captured = match s.at(e_y as int, e_x as int) {
                None => 0,
                Some(q) => piece_score(q, e_y as int, e_x as int),
            };
            piece_score(Piece { c: m.c, t: to_piece }, e_y as int, e_x as int) - piece_score(
                m,
                s_y as int,
                s_x as int,
            ) + captured
        },
        Action::Enpassant { s_y, s_x, e_y, e_x } => piece_score(m, e_y as int, e_x as int)
            - piece_score(m, s_y as int, s_x as int) + piece_score(
            s.at(s_y as int, e_x as int)->0,
            s_y as int,
            e_x as int,
        ),
        Action::Tie => 0,
    }
}

/// The largest size of the change one move can make to the score.
pub const MAX_DELTA: i64 = 40000200;

pub fn heuristic_action(state: &State, action: &Action) -> (r: i64)
    requires
        valid_ignoring_check(*state, *action),
    ensures
        r == action_delta(*state, *action),
        -MAX_DELTA <= r <= MAX_DELTA,
{
    if let Action::Tie = *action {
        return 0;
    }
    let main_piece = action.get_main_piece(state).unwrap();
    match *action {
        Action::Jump { s_y, s_x, e_y, e_x } => {
            piece_value(&main_piece, e_y, e_x) - piece_value(&main_piece, s_y, s_x)
        },
        Action::Capture { s_y, s_x, e_y, e_x } => {
            let captured_piece = state.board[e_y][e_x].unwrap();
            piece_value(&main_piece, e_y, e_x) - piece_value(&main_piece, s_y, s_x) + piece_value(
                &captured_piece,
                e_y,
                e_x,
            )
        },
        Action::Castling { s_y, queenside, .. } => {
            if queenside {
                let rook = state.board[s_y][0].unwrap();
                piece_value(&main_piece, s_y, 2) - piece_value(&main_piece, s_y, 4) + piece_value(
                    &rook,
                    s_y,
                    3,
                ) - piece_value(&rook, s_y, 0)
            } else {
                let rook = state.board[s_y][7].unwrap();
                piece_value(&main_piece, s_y, 6) - piece_value(&main_piece, s_y, 4) + piece_value(
                    &rook,
                    s_y,
                    5,
                ) - piece_value(&rook, s_y, 7)
            }
        },
        Action::Promotion { s_y, s_x, e_y, e_x, to_piece } => {
            let captured_value = match state.board[e_y][e_x] {
                None => 0,
                Some(captured_piece) => piece_value(&captured_piece, e_y, e_x),
            };
            let new_piece = Piece { c: main_piece.c, t: to_piece };
            piece_value(&new_piece, e_y, e_x) - piece_value(&main_piece, s_y, s_x) + captured_value
        },
        Action::Enpassant { s_y, s_x, e_y, e_x } => {
            let captured_pawn = state.board[s_y][e_x].unwrap();
            piece_value(&main_piece, e_y, e_x) - piece_value(&main_piece, s_y, s_x) + piece_value(
                &captured_pawn,
                s_y,
                e_x,
            )
        },
        Action::Tie => 0,
    }
}

} // verus!
