//! Playing a move: the board it leaves, a copying applier, and an in-place
//! applier with its undo.
use vstd::prelude::*;
use crate::action::Action;
use crate::actions::valid_ignoring_check;
use crate::state::{on_board, Board, Grid, Piece, State, PT};

verus! {

broadcast use vstd::std_specs::hash::group_hash_axioms;

/// A piece after it moved from row `sy` to row `ey` as move number `moves`:
/// a pawn records a two-row advance (and forgets any earlier one), a rook or
/// a king is marked as moved.
pub open spec fn touched(p: Piece, sy: int, ey: int, moves: usize) -> Piece {
    match p.t {
        PT::Pawn { .. } => Piece {
            c: p.c,
            t: PT::Pawn {
                last_jump: if ey == sy + 2 || sy == ey + 2 {
                    Some(moves)
                } else {
                    None
                },
            },
        },
        PT::Rook { .. } => Piece { c: p.c, t: PT::Rook { has_moved: true } },
        PT::King { .. } => Piece { c: p.c, t: PT::King { has_moved: true } },
        _ => p,
    }
}

pub open spec fn touched_opt(p: Option<Piece>, sy: int, ey: int, moves: usize) -> Option<Piece> {
    match p {
        Some(q) => Some(touched(q, sy, ey, moves)),
        None => None,
    }
}

/// What square (y, x) holds once move `a` is played from `s`.
pub open spec fn after_at(s: State, a: Action, y: int, x: int) -> Option<Piece> {
    let n = s.moves;
    match a {
        Action::Jump { s_y, s_x, e_y, e_x } | Action::Capture { s_y, s_x, e_y, e_x } => {
            if y == s_y && x == s_x {
                None
            } else if y == e_y && x == e_x {
                touched_opt(s.at(s_y as int, s_x as int), s_y as int, e_y as int, n)
            } else {
                s.at(y, x)
            }
        },
        Action::Castling { s_y, s_x, queenside } => {
            let (king_to, rook_from, rook_to) = if queenside {
                (2int, 0int, 3int)
            } else {
                (6int, 7int, 5int)
            };
            if y != s_y {
                s.at(y, x)
            } else if x == king_to {
                touched_opt(s.at(y, s_x as int), y, y, n)
            } else if x == rook_to {
                touched_opt(s.at(y, rook_from), y, y, n)
            } else if x == s_x || x == rook_from {
                None
            } else {
                s.at(y, x)
            }
        },
        Action::Promotion { s_y, s_x, e_y, e_x, to_piece } => {
            if y == e_y && x == e_x {
                Some(Piece { c: s.turn, t: to_piece })
            } else if y == s_y && x == s_x {
                None
            } else {
                s.at(y, x)
            }
        },
        Action::Enpassant { s_y, s_x, e_y, e_x } => {
            if y == e_y && x == e_x {
                touched_opt(s.at(s_y as int, s_x as int), s_y as int, e_y as int, n)
            } else if y == s_y && (x == s_x || x == e_x) {
                None
            } else {
                s.at(y, x)
            }
        },
        Action::Tie => s.at(y, x),
    }
}

/// The board once move `a` is played from `s`.
pub open spec fn after(s: State, a: Action) -> Grid {
    |y: int, x: int|
        if on_board(y, x) {
            after_at(s, a, y, x)
        } else {
            None
        }
}


/// `t` is what playing `a` from `s` gives: the board after the move, the
/// other side to move, the counter one higher, the new position counted once
/// more in the repetition table, and the game drawn by a claim or once a
/// position has occurred five times.
pub open spec fn is_successor(s: State, a: Action, t: State) -> bool {
    let h = t.spec_hash();
    &&& forall|y: int, x: int| on_board(y, x) ==> #[trigger] t.at(y, x) == after_at(s, a, y, x)
    &&& t.turn == s.turn.other()
    &&& t.moves == s.moves + 1
    &&& t.count_of(h) == s.count_of(h) + 1
    &&& t.table() == s.table().insert(h, t.table()[h])
    &&& t.drawn == (s.drawn || a is Tie || t.count_of(h) >= 5)
}

/// The squares that move `a` changes, in the order its record lists them.
pub open spec fn touched_squares(a: Action) -> Seq<(usize, usize)> {
    match a {
        Action::Jump { s_y, s_x, e_y, e_x } => seq![(s_y, s_x), (e_y, e_x)],
        Action::Capture { s_y, s_x, e_y, e_x } => seq![(s_y, s_x), (e_y, e_x)],
        Action::Castling { s_y, s_x, queenside } => if queenside {
            seq![(s_y, 2usize), (s_y, s_x), (s_y, 3usize), (s_y, 0usize)]
        } else {
            seq![(s_y, 6usize), (s_y, s_x), (s_y, 5usize), (s_y, 7usize)]
        },
        Action::Promotion { s_y, s_x, e_y, e_x, .. } => seq![(s_y, s_x), (e_y, e_x)],
        Action::Enpassant { s_y, s_x, e_y, e_x } => seq![(s_y, s_x), (e_y, e_x), (s_y, e_x)],
        Action::Tie => seq![],
    }
}

/// The record of an in-place move: each square it changes, with what the
/// square held before.
pub open spec fn record_of(s: State, a: Action) -> Seq<(usize, usize, Option<Piece>)> {
    touched_squares(a).map_values(
        |q: (usize, usize)| (q.0, q.1, s.at(q.0 as int, q.1 as int)),
    )
}

/// What (y, x) holds once the entries of `rec` are written back in order.
pub open spec fn restored_at(b: Board, rec: Seq<(usize, usize, Option<Piece>)>, y: int, x: int) -> Option<Piece>
    decreases rec.len(),
{
    if rec.len() == 0 {
        b[y][x]
    } else {
        let e = rec.last();
        if e.0 == y && e.1 == x {
            e.2
        } else {
            restored_at(b, rec.drop_last(), y, x)
        }
    }
}

/// `u` is `t` with the move recorded in `rec` taken back: the squares written
/// back, the side to move flipped, the counter one lower, the drawn flag as
/// recorded, and the
/// current position counted once less (removed at one).
pub open spec fn is_reverted(
    t: State,
    rec: Seq<(usize, usize, Option<Piece>)>,
    drawn: bool,
    u: State,
) -> bool {
    let h = t.spec_hash();
    &&& forall|y: int, x: int| on_board(y, x) ==> #[trigger] u.at(y, x) == restored_at(t.board, rec, y, x)
    &&& u.turn == t.turn.other()
    &&& u.moves == t.moves - 1
    &&& u.drawn == drawn
    &&& u.table() == if t.count_of(h) > 1 {
        t.table().insert(h, (t.table()[h] - 1) as i32)
    } else {
        t.table().remove(h)
    }
}

fn set_square(b: &mut Board, y: usize, x: usize, v: Option<Piece>)
    requires
        y < 8,
        x < 8,
    ensures
        forall|i: int, j: int|
            on_board(i, j) ==> #[trigger] final(b)[i][j] == if i == y && j == x {
                v
            } else {
                old(b)[i][j]
            },
{
    b[y][x] = v;
}

fn touch(p: Option<Piece>, s_y: usize, e_y: usize, moves: usize) -> (r: Option<Piece>)
    requires
        s_y < 8,
        e_y < 8,
    ensures
        r == touched_opt(p, s_y as int, e_y as int, moves),
{
    match p {
        None => None,
        Some(q) => match q.t {
            PT::Pawn { .. } => {
                let last_jump = if s_y == e_y + 2 || e_y == s_y + 2 {
                    Some(moves)
                } else {
                    None
                };
                Some(Piece { c: q.c, t: PT::Pawn { last_jump } })
            },
            PT::Rook { .. } => Some(Piece { c: q.c, t: PT::Rook { has_moved: true } }),
            PT::King { .. } => Some(Piece { c: q.c, t: PT::King { has_moved: true } }),
            _ => Some(q),
        },
    }
}

/// The board once a move that obeys the rules is played.
pub(crate) fn apply_to_board(state: &State, action: &Action) -> (r: Board)
    requires
        valid_ignoring_check(*state, *action),
    ensures
        forall|y: int, x: int| on_board(y, x) ==> #[trigger] r[y][x] == after_at(*state, *action, y, x),
{
    let mut b = state.board;
    let n = state.moves;
    match *action {
        Action::Jump { s_y, s_x, e_y, e_x } => {
            let p = touch(b[s_y][s_x], s_y, e_y, n);
            set_square(&mut b, e_y, e_x, p);
            set_square(&mut b, s_y, s_x, None);
        },
        Action::Capture { s_y, s_x, e_y, e_x } => {
            let p = touch(b[s_y][s_x], s_y, e_y, n);
            set_square(&mut b, e_y, e_x, p);
            set_square(&mut b, s_y, s_x, None);
        },
        Action::Castling { s_y, s_x, queenside } => {
            let (king_to, rook_from, rook_to): (usize, usize, usize) = if queenside {
                (2, 0, 3)
            } else {
                (6, 7, 5)
            };
            let king = touch(b[s_y][s_x], s_y, s_y, n);
            set_square(&mut b, s_y, king_to, king);
            set_square(&mut b, s_y, s_x, None);
            let rook = touch(b[s_y][rook_from], s_y, s_y, n);
            set_square(&mut b, s_y, rook_to, rook);
            set_square(&mut b, s_y, rook_from, None);
        },
        Action::Promotion { s_y, s_x, e_y, e_x, to_piece } => {
            set_square(&mut b, e_y, e_x, Some(Piece { c: state.turn, t: to_piece }));
            set_square(&mut b, s_y, s_x, None);
        },
        Action::Enpassant { s_y, s_x, e_y, e_x } => {
            let p = touch(b[s_y][s_x], s_y, e_y, n);
            set_square(&mut b, e_y, e_x, p);
            set_square(&mut b, s_y, s_x, None);
            set_square(&mut b, s_y, e_x, None);
        },
        Action::Tie => {},
    }
    b
}

/// Counts the current position once more in the repetition table, and
/// marks the game drawn when that count reaches five.
fn record_occurrence(state: &mut State)
    requires
        forall|h: u64| #[trigger] old(state).table().contains_key(h) ==> old(state).table()[h] < i32::MAX,
    ensures
        final(state).board == old(state).board,
        final(state).turn == old(state).turn,
        final(state).moves == old(state).moves,
        final(state).count_of(old(state).spec_hash()) == old(state).count_of(old(state).spec_hash())
            + 1,
        final(state).table() == old(state).table().insert(
            old(state).spec_hash(),
            final(state).table()[old(state).spec_hash()],
        ),
        final(state).drawn == (old(state).drawn || old(state).count_of(old(state).spec_hash()) + 1
            >= 5),
{
    let h = state.hash();
    let count: i32 = match state.hash_to_occurences.get(&h) {
        Some(v) => {
            assert(state.table().contains_key(h));
            *v
        },
        None => 0,
    };
    state.hash_to_occurences.insert(h, count + 1);
    if count + 1 >= 5 {
        state.drawn = true;
    }
}

/// Plays a move on a copy of the position. The move must have been checked
/// against the rules first.
pub fn result(old_state: &State, action: &Action) -> (r: State)
    requires
        valid_ignoring_check(*old_state, *action),
        old_state.room(1),
    ensures
        is_successor(*old_state, *action, r),
{
    let board = apply_to_board(old_state, action);
    let is_tie = match action {
        Action::Tie => true,
        _ => false,
    };
    let mut new_state = State {
        board,
        hash_to_occurences: old_state.hash_to_occurences.clone(),
        turn: old_state.turn.opponent(),
        moves: old_state.moves + 1,
        drawn: old_state.drawn || is_tie,
    };
    assert(new_state.table() == old_state.table());
    assert forall|h: u64| #[trigger] new_state.table().contains_key(h) implies new_state.table()[h]
        < i32::MAX by {
        assert(old_state.table().contains_key(h));
    }
    record_occurrence(&mut new_state);
    new_state
}

/// What `inplace_revert` needs to take back a move played in place: each
/// square the move changed, with what it held before, and whether the game
/// was drawn before.
pub struct MoveRecord {
    pub squares: Vec<(usize, usize, Option<Piece>)>,
    pub drawn: bool,
}

/// Plays a move in place and returns the record that `inplace_revert` needs
/// to take it back.
pub fn inplace_result(state: &mut State, action: &Action) -> (r: MoveRecord)
    requires
        valid_ignoring_check(*old(state), *action),
        old(state).room(1),
    ensures
        is_successor(*old(state), *action, *final(state)),
        r.squares@ == record_of(*old(state), *action),
        r.drawn == old(state).drawn,
{
    let board = apply_to_board(state, action);
    let was_drawn = state.drawn;
    let mut moved_pieces: Vec<(usize, usize, Option<Piece>)> = Vec::new();
    match *action {
        Action::Jump { s_y, s_x, e_y, e_x } | Action::Capture { s_y, s_x, e_y, e_x } | Action::Promotion { s_y, s_x, e_y, e_x, .. } => {
            moved_pieces.push((s_y, s_x, state.board[s_y][s_x]));
            moved_pieces.push((e_y, e_x, state.board[e_y][e_x]));
        },
        Action::Castling { s_y, s_x, queenside } => {
            let (king_to, rook_from, rook_to): (usize, usize, usize) = if queenside {
                (2, 0, 3)
            } else {
                (6, 7, 5)
            };
            moved_pieces.push((s_y, king_to, state.board[s_y][king_to]));
            moved_pieces.push((s_y, s_x, state.board[s_y][s_x]));
            moved_pieces.push((s_y, rook_to, state.board[s_y][rook_to]));
            moved_pieces.push((s_y, rook_from, state.board[s_y][rook_from]));
        },
        Action::Enpassant { s_y, s_x, e_y, e_x } => {
            moved_pieces.push((s_y, s_x, state.board[s_y][s_x]));
            moved_pieces.push((e_y, e_x, state.board[e_y][e_x]));
            moved_pieces.push((s_y, e_x, state.board[s_y][e_x]));
        },
        Action::Tie => {
            state.drawn = true;
        },
    }
    assert(moved_pieces@ =~= record_of(*old(state), *action));
    state.board = board;
    state.turn = state.turn.opponent();
    state.moves = state.moves + 1;
    assert(state.table() == old(state).table());
    assert forall|h: u64| #[trigger] state.table().contains_key(h) implies state.table()[h]
        < i32::MAX by {
        assert(old(state).table().contains_key(h));
    }
    record_occurrence(state);
    MoveRecord { squares: moved_pieces, drawn: was_drawn }
}

/// Takes back a move played by `inplace_result`, given its record.
pub fn inplace_revert(state: &mut State, record: MoveRecord)
    requires
        old(state).moves >= 1,
        old(state).counts_ok(),
        forall|i: int| 0 <= i < record.squares@.len() ==> #[trigger] record.squares@[i].0 < 8
            && record.squares@[i].1 < 8,
    ensures
        is_reverted(*old(state), record.squares@, record.drawn, *final(state)),
{
    let moved_pieces = record.squares;
    let h = state.hash();
    match state.hash_to_occurences.remove(&h) {
        None => {},
        Some(x) => {
            assert(old(state).table().contains_key(h));
            if x != 1 {
                state.hash_to_occurences.insert(h, x - 1);
            }
        },
    }
    let ghost t = *old(state);
    let mut i: usize = 0;
    while i < moved_pieces.len()
        invariant
            i <= moved_pieces@.len(),
            forall|j: int| 0 <= j < moved_pieces@.len() ==> #[trigger] moved_pieces@[j].0 < 8 && moved_pieces@[j].1 < 8,
            forall|y: int, x: int| on_board(y, x) ==> #[trigger] state.at(y, x) == restored_at(t.board, moved_pieces@.take(i as int), y, x),
            state.turn == t.turn,
            state.moves == t.moves,
            state.moves >= 1,
            state.table() == if t.count_of(t.spec_hash()) > 1 {
                t.table().insert(t.spec_hash(), (t.table()[t.spec_hash()] - 1) as i32)
            } else {
                t.table().remove(t.spec_hash())
            },
        decreases moved_pieces@.len() - i,
    {
        let (y, x, p) = moved_pieces[i];
        let ghost before = *state;
        set_square(&mut state.board, y, x, p);
        assert(moved_pieces@.take(i + 1).drop_last() =~= moved_pieces@.take(i as int));
        assert forall|yy: int, xx: int| on_board(yy, xx) implies #[trigger] state.at(yy, xx)
            == restored_at(t.board, moved_pieces@.take(i + 1), yy, xx) by {
            assert(moved_pieces@.take(i + 1).last() == moved_pieces@[i as int]);
            assert(before.at(yy, xx) == restored_at(t.board, moved_pieces@.take(i as int), yy, xx));
        }
        i = i + 1;
    }
    assert(moved_pieces@.take(i as int) =~= moved_pieces@);
    let ghost mid = *state;
    state.drawn = record.drawn;
    state.turn = state.turn.opponent();
    state.moves = state.moves - 1;
    assert forall|y: int, x: int| on_board(y, x) implies #[trigger] state.at(y, x) == restored_at(
        t.board,
        moved_pieces@,
        y,
        x,
    ) by {
        assert(mid.at(y, x) == restored_at(t.board, moved_pieces@.take(i as int), y, x));
    }
}


/// The squares a move names are on the board and those it changes are
/// distinct: what every move that obeys the rules satisfies.
pub open spec fn well_placed(a: Action) -> bool {
    &&& a.coords_ok()
    &&& match a {
        Action::Jump { s_y, s_x, e_y, e_x } => s_y != e_y || s_x != e_x,
        Action::Capture { s_y, s_x, e_y, e_x } => s_y != e_y || s_x != e_x,
        Action::Castling { s_x, .. } => s_x == 4,
        Action::Promotion { s_y, e_y, .. } => s_y != e_y,
        Action::Enpassant { s_y, e_y, .. } => s_y != e_y,
        Action::Tie => true,
    }
}

/// Every move that obeys the rules is well placed.
pub proof fn lemma_valid_well_placed(s: State, a: Action)
    requires
        valid_ignoring_check(s, a),
    ensures
        well_placed(a),
{
}

proof fn lemma_restore_square(s: State, a: Action, t: State, y: int, x: int)
    requires
        well_placed(a),
        on_board(y, x),
        forall|i: int, j: int| on_board(i, j) ==> #[trigger] t.at(i, j) == after_at(s, a, i, j),
    ensures
        restored_at(t.board, record_of(s, a), y, x) == s.at(y, x),
{
    reveal_with_fuel(restored_at, 5);
    let rec = record_of(s, a);
    assert(t.at(y, x) == after_at(s, a, y, x));
    match a {
        Action::Castling { .. } => {
            assert(rec.drop_last().drop_last().drop_last().drop_last() =~= Seq::empty());
        },
        Action::Enpassant { .. } => {
            assert(rec.drop_last().drop_last().drop_last() =~= Seq::empty());
        },
        Action::Tie => {},
        _ => {
            assert(rec.drop_last().drop_last() =~= Seq::empty());
        },
    }
}

/// Taking back a move with the record that playing it in place returned
/// gives back the position exactly: every square, the side to move, the
/// counter, the drawn flag and the repetition table (and with them the
/// fingerprint).
pub proof fn lemma_undo_round_trip(s: State, a: Action, t: State, u: State)
    requires
        well_placed(a),
        s.counts_ok(),
        is_successor(s, a, t),
        is_reverted(t, record_of(s, a), s.drawn, u),
    ensures
        u.same_as(s),
{
    assert forall|y: int| 0 <= y < 8 implies #[trigger] u.board[y] =~= s.board[y] by {
        assert forall|x: int| 0 <= x < 8 implies u.board[y][x] == s.board[y][x] by {
            assert(on_board(y, x));
            assert(u.at(y, x) == restored_at(t.board, record_of(s, a), y, x));
            lemma_restore_square(s, a, t, y, x);
        }
    }
    assert(u.board =~= s.board);
    let h = t.spec_hash();
    if s.table().contains_key(h) {
        assert(t.table().insert(h, (t.table()[h] - 1) as i32) =~= s.table());
    } else {
        assert(t.table().remove(h) =~= s.table());
    }
}


/// The copying applier and the in-place one agree: any two successors of a
/// position by the same move are the same position.
pub proof fn lemma_successor_unique(s: State, a: Action, t1: State, t2: State)
    requires
        is_successor(s, a, t1),
        is_successor(s, a, t2),
    ensures
        t1.same_as(t2),
{
    assert forall|y: int| 0 <= y < 8 implies #[trigger] t1.board[y] =~= t2.board[y] by {
        assert forall|x: int| 0 <= x < 8 implies t1.board[y][x] == t2.board[y][x] by {
            assert(on_board(y, x));
            assert(t1.at(y, x) == after_at(s, a, y, x));
            assert(t2.at(y, x) == after_at(s, a, y, x));
        }
    }
    assert(t1.board =~= t2.board);
}

} // verus!
