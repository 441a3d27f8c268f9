//! Move legality: the movement rule of each kind, attack detection, the
//! special rules (castling, en passant, promotion, draw claims), the filter
//! that keeps the mover's king safe, and the enumeration of legal moves.
use vstd::prelude::*;
use crate::action::{classify, Action};
use crate::result::{after, after_at, apply_to_board, is_successor};
use crate::state::{grid_of, on_board, Board, Grid, Piece, State, PC, PT};

verus! {

broadcast use vstd::std_specs::hash::group_hash_axioms;

pub open spec fn abs(v: int) -> int {
    if v < 0 {
        -v
    } else {
        v
    }
}

/// The coordinate `i` steps from `from` in the direction of `to`.
pub open spec fn toward(from: int, to: int, i: int) -> int {
    if from < to {
        from + i
    } else {
        from - i
    }
}

/// A pawn of colour `c` advancing without capture: one row forward, or two
/// from its starting row over an empty square.
pub open spec fn pawn_jump_ok(g: Grid, c: PC, sy: int, sx: int, ey: int, ex: int) -> bool {
    if c == PC::Black {
        (ey == 3 && sy == 1 && g(2, sx) is None && ex == sx) || (ey == sy + 1 && ex == sx)
    } else {
        (ey == 4 && sy == 6 && g(5, sx) is None && ex == sx) || (ey + 1 == sy && ex == sx)
    }
}

/// A pawn of colour `c` capturing: one row forward and one file aside.
pub open spec fn pawn_capture_ok(c: PC, sy: int, sx: int, ey: int, ex: int) -> bool {
    if c == PC::Black {
        ey == sy + 1 && abs(ex - sx) == 1
    } else {
        ey + 1 == sy && abs(ex - sx) == 1
    }
}

pub open spec fn knight_ok(sy: int, sx: int, ey: int, ex: int) -> bool {
    (abs(ey - sy) == 1 && abs(ex - sx) == 2) || (abs(ey - sy) == 2 && abs(ex - sx) == 1)
}

/// A diagonal move whose intermediate squares are empty.
pub open spec fn bishop_ok(g: Grid, sy: int, sx: int, ey: int, ex: int) -> bool {
    &&& abs(ey - sy) == abs(ex - sx)
    &&& forall|i: int|
        1 <= i < abs(ey - sy) ==> #[trigger] g(toward(sy, ey, i), toward(sx, ex, i)) is None
}

/// A move along a row or a column whose intermediate squares are empty.
pub open spec fn rook_ok(g: Grid, sy: int, sx: int, ey: int, ex: int) -> bool {
    if ey == sy {
        forall|i: int| 1 <= i < abs(ex - sx) ==> #[trigger] g(ey, toward(sx, ex, i)) is None
    } else if ex == sx {
        forall|i: int| 1 <= i < abs(ey - sy) ==> #[trigger] g(toward(sy, ey, i), ex) is None
    } else {
        false
    }
}

pub open spec fn queen_ok(g: Grid, sy: int, sx: int, ey: int, ex: int) -> bool {
    rook_ok(g, sy, sx, ey, ex) || bishop_ok(g, sy, sx, ey, ex)
}

/// One step in any direction.
pub open spec fn king_step_ok(sy: int, sx: int, ey: int, ex: int) -> bool {
    (abs(ey - sy) == 1 && abs(ex - sx) <= 1) || (abs(ey - sy) <= 1 && abs(ex - sx) == 1)
}

/// Piece `p` on (sy, sx) could capture on (ey, ex).
pub open spec fn reaches(g: Grid, p: Piece, sy: int, sx: int, ey: int, ex: int) -> bool {
    match p.t {
        PT::Pawn { .. } => pawn_capture_ok(p.c, sy, sx, ey, ex),
        PT::Knight => knight_ok(sy, sx, ey, ex),
        PT::Bishop => bishop_ok(g, sy, sx, ey, ex),
        PT::Rook { .. } => rook_ok(g, sy, sx, ey, ex),
        PT::Queen => queen_ok(g, sy, sx, ey, ex),
        PT::King { .. } => king_step_ok(sy, sx, ey, ex),
    }
}

/// Piece `p` on (sy, sx) could move to the empty square (ey, ex).
pub open spec fn moves_to(g: Grid, p: Piece, sy: int, sx: int, ey: int, ex: int) -> bool {
    match p.t {
        PT::Pawn { .. } => pawn_jump_ok(g, p.c, sy, sx, ey, ex),
        _ => reaches(g, p, sy, sx, ey, ex),
    }
}

/// Square (y, x) is attacked by a piece of the opponent of `me`.
pub open spec fn attacked(g: Grid, y: int, x: int, me: PC) -> bool {
    exists|sy: int, sx: int|
        on_board(sy, sx) && #[trigger] g(sy, sx) is Some && g(sy, sx)->0.c == me.other() && reaches(
            g,
            g(sy, sx)->0,
            sy,
            sx,
            y,
            x,
        )
}

pub open spec fn is_king_of(p: Option<Piece>, me: PC) -> bool {
    match p {
        Some(q) => q.c == me && q.t is King,
        None => false,
    }
}

/// (y1, x1) comes before (y2, x2) in row-major order.
pub open spec fn before(y1: int, x1: int, y2: int, x2: int) -> bool {
    y1 < y2 || (y1 == y2 && x1 < x2)
}

pub open spec fn has_king(g: Grid, me: PC) -> bool {
    exists|y: int, x: int| on_board(y, x) && is_king_of(#[trigger] g(y, x), me)
}

/// (y, x) holds the first king of `me` in row-major order.
pub open spec fn first_king(g: Grid, me: PC, y: int, x: int) -> bool {
    &&& on_board(y, x)
    &&& is_king_of(g(y, x), me)
    &&& forall|y2: int, x2: int|
        on_board(y2, x2) && before(y2, x2, y, x) ==> !is_king_of(#[trigger] g(y2, x2), me)
}

/// The king of `me` (the first one, should there be several) is attacked.
pub open spec fn king_attacked(g: Grid, me: PC) -> bool {
    exists|y: int, x: int| #[trigger] first_king(g, me, y, x) && attacked(g, y, x, me)
}

pub open spec fn promotable(t: PT) -> bool {
    t == PT::Queen || t == PT::Rook { has_moved: true } || t == PT::Bishop || t == PT::Knight
}

/// Castling on row `y` to the given side: the rook of the side to move is in
/// its corner and has never moved, the squares between are empty, and none
/// of the squares the king stands on, crosses or reaches (files 4, 3, 2 or
/// 4, 5, 6) is attacked.
pub open spec fn castle_ok(s: State, y: int, queenside: bool) -> bool {
    let g = s.grid();
    if queenside {
        &&& g(y, 0) == Some(Piece { c: s.turn, t: PT::Rook { has_moved: false } })
        &&& forall|i: int| 1 <= i < 4 ==> #[trigger] g(y, i) is None
        &&& forall|i: int| 2 <= i <= 4 ==> !attacked(g, y, i, s.turn)
    } else {
        &&& g(y, 7) == Some(Piece { c: s.turn, t: PT::Rook { has_moved: false } })
        &&& forall|i: int| 5 <= i < 7 ==> #[trigger] g(y, i) is None
        &&& forall|i: int| 4 <= i <= 6 ==> !attacked(g, y, i, s.turn)
    }
}

/// The rule of the move's kind, for moving piece `m`.
pub open spec fn kind_rule(s: State, m: Piece, a: Action) -> bool {
    let g = s.grid();
    match a {
        Action::Jump { s_y, s_x, e_y, e_x } => g(e_y as int, e_x as int) is None && moves_to(
            g,
            m,
            s_y as int,
            s_x as int,
            e_y as int,
            e_x as int,
        ),
        Action::Capture { s_y, s_x, e_y, e_x } => {
            &&& g(e_y as int, e_x as int) is Some
            &&& g(e_y as int, e_x as int)->0.c != m.c
            &&& reaches(g, m, s_y as int, s_x as int, e_y as int, e_x as int)
        },
        Action::Castling { s_y, s_x, queenside } => {
            &&& m.t == PT::King { has_moved: false }
            &&& (s_y == 0 || s_y == 7)
            &&& s_x == 4
            &&& castle_ok(s, s_y as int, queenside)
        },
        Action::Promotion { s_y, s_x, e_y, e_x, to_piece } => {
            &&& m.t is Pawn
            &&& promotable(to_piece)
            &&& if m.c == PC::Black {
                e_y == 7
            } else {
                e_y == 0
            }
            &&& match g(e_y as int, e_x as int) {
                Some(q) => q.c != m.c && pawn_capture_ok(
                    m.c,
                    s_y as int,
                    s_x as int,
                    e_y as int,
                    e_x as int,
                ),
                None => pawn_jump_ok(g, m.c, s_y as int, s_x as int, e_y as int, e_x as int),
            }
        },
        Action::Enpassant { s_y, s_x, e_y, e_x } => {
            let cap = g(s_y as int, e_x as int);
            &&& g(e_y as int, e_x as int) is None
            &&& m.t is Pawn
            &&& cap is Some
            &&& cap->0.c != m.c
            &&& cap->0.t == PT::Pawn { last_jump: Some((s.moves - 1) as usize) }
            &&& s.moves > 0
            &&& abs(e_x - s_x) == 1
            &&& if m.c == PC::Black {
                s_y == 4 && e_y == 5
            } else {
                s_y == 3 && e_y == 2
            }
        },
        Action::Tie => true,
    }
}

/// The move obeys the rules, leaving aside whether it exposes the mover's
/// king. A draw claim needs the position to have occurred three times.
pub open spec fn valid_ignoring_check(s: State, a: Action) -> bool {
    match a {
        Action::Tie => s.occurrences() >= 3,
        _ => {
            let (sy, sx) = a.main_coords();
            let m = s.at(sy as int, sx as int);
            &&& a.coords_ok()
            &&& m is Some
            &&& m->0.c == s.turn
            &&& kind_rule(s, m->0, a)
        },
    }
}

/// A fully legal move: it obeys the rules and the mover's king is not
/// attacked once it is played. A draw claim leaves the board as it is, so
/// it is legal only when the mover is not in check.
pub open spec fn legal(s: State, a: Action) -> bool {
    valid_ignoring_check(s, a) && !king_attacked(after(s, a), s.turn)
}


fn diff(a: usize, b: usize) -> (r: usize)
    ensures
        r == abs(a - b),
{
    if a < b {
        b - a
    } else {
        a - b
    }
}

fn valid_pawn_jump(b: &Board, c: PC, s_y: usize, s_x: usize, e_y: usize, e_x: usize) -> (r: bool)
    requires
        s_y < 8,
        s_x < 8,
        e_y < 8,
        e_x < 8,
    ensures
        r == pawn_jump_ok(grid_of(*b), c, s_y as int, s_x as int, e_y as int, e_x as int),
{
    if c == PC::Black {
        (e_y == 3 && s_y == 1 && b[2][s_x].is_none() && e_x == s_x) || (e_y == s_y + 1 && e_x
            == s_x)
    } else {
        (e_y == 4 && s_y == 6 && b[5][s_x].is_none() && e_x == s_x) || (e_y + 1 == s_y && e_x
            == s_x)
    }
}

fn valid_pawn_capture(c: PC, s_y: usize, s_x: usize, e_y: usize, e_x: usize) -> (r: bool)
    requires
        s_y < 8,
        s_x < 8,
        e_y < 8,
        e_x < 8,
    ensures
        r == pawn_capture_ok(c, s_y as int, s_x as int, e_y as int, e_x as int),
{
    if c == PC::Black {
        e_y == s_y + 1 && (e_x + 1 == s_x || e_x == s_x + 1)
    } else {
        e_y + 1 == s_y && (e_x + 1 == s_x || e_x == s_x + 1)
    }
}

fn valid_knight_jump(s_y: usize, s_x: usize, e_y: usize, e_x: usize) -> (r: bool)
    ensures
        r == knight_ok(s_y as int, s_x as int, e_y as int, e_x as int),
{
    let dy = diff(e_y, s_y);
    let dx = diff(e_x, s_x);
    (dy == 1 && dx == 2) || (dy == 2 && dx == 1)
}

fn valid_bishop_jump(b: &Board, s_y: usize, s_x: usize, e_y: usize, e_x: usize) -> (r: bool)
    requires
        s_y < 8,
        s_x < 8,
        e_y < 8,
        e_x < 8,
    ensures
        r == bishop_ok(grid_of(*b), s_y as int, s_x as int, e_y as int, e_x as int),
{
    let g = Ghost(grid_of(*b));
    let steps = diff(e_y, s_y);
    if steps != diff(e_x, s_x) {
        return false;
    }
    let mut i: usize = 1;
    while i < steps
        invariant
            1 <= i,
            steps == abs(e_y - s_y),
            steps == abs(e_x - s_x),
            s_y < 8,
            s_x < 8,
            e_y < 8,
            e_x < 8,
            g@ == grid_of(*b),
            forall|j: int|
                1 <= j < i ==> #[trigger] g@(toward(s_y as int, e_y as int, j), toward(
                    s_x as int,
                    e_x as int,
                    j,
                )) is None,
        decreases steps - i,
    {
        let c_y = if s_y < e_y {
            s_y + i
        } else {
            s_y - i
        };
        let c_x = if s_x < e_x {
            s_x + i
        } else {
            s_x - i
        };
        if b[c_y][c_x].is_some() {
            assert(g@(toward(s_y as int, e_y as int, i as int), toward(s_x as int, e_x as int, i as int)) is Some);
            return false;
        }
        i = i + 1;
    }
    true
}

fn valid_rook_jump(b: &Board, s_y: usize, s_x: usize, e_y: usize, e_x: usize) -> (r: bool)
    requires
        s_y < 8,
        s_x < 8,
        e_y < 8,
        e_x < 8,
    ensures
        r == rook_ok(grid_of(*b), s_y as int, s_x as int, e_y as int, e_x as int),
{
    let g = Ghost(grid_of(*b));
    if e_y == s_y {
        let steps = diff(e_x, s_x);
        let mut i: usize = 1;
        while i < steps
            invariant
                1 <= i,
                steps == abs(e_x - s_x),
                s_x < 8,
                e_y < 8,
                e_x < 8,
                g@ == grid_of(*b),
                forall|j: int|
                    1 <= j < i ==> #[trigger] g@(e_y as int, toward(s_x as int, e_x as int, j))
                        is None,
            decreases steps - i,
        {
            let c_x = if s_x < e_x {
                s_x + i
            } else {
                s_x - i
            };
            if b[e_y][c_x].is_some() {
                assert(g@(e_y as int, toward(s_x as int, e_x as int, i as int)) is Some);
                return false;
            }
            i = i + 1;
        }
        true
    } else if e_x == s_x {
        let steps = diff(e_y, s_y);
        let mut i: usize = 1;
        while i < steps
            invariant
                1 <= i,
                steps == abs(e_y - s_y),
                s_y < 8,
                e_y < 8,
                e_x < 8,
                g@ == grid_of(*b),
                forall|j: int|
                    1 <= j < i ==> #[trigger] g@(toward(s_y as int, e_y as int, j), e_x as int)
                        is None,
            decreases steps - i,
        {
            let c_y = if s_y < e_y {
                s_y + i
            } else {
                s_y - i
            };
            if b[c_y][e_x].is_some() {
                assert(g@(toward(s_y as int, e_y as int, i as int), e_x as int) is Some);
                return false;
            }
            i = i + 1;
        }
        true
    } else {
        false
    }
}

fn valid_queen_jump(b: &Board, s_y: usize, s_x: usize, e_y: usize, e_x: usize) -> (r: bool)
    requires
        s_y < 8,
        s_x < 8,
        e_y < 8,
        e_x < 8,
    ensures
        r == queen_ok(grid_of(*b), s_y as int, s_x as int, e_y as int, e_x as int),
{
    valid_rook_jump(b, s_y, s_x, e_y, e_x) || valid_bishop_jump(b, s_y, s_x, e_y, e_x)
}

fn valid_king_jump(s_y: usize, s_x: usize, e_y: usize, e_x: usize) -> (r: bool)
    ensures
        r == king_step_ok(s_y as int, s_x as int, e_y as int, e_x as int),
{
    let dy = diff(e_y, s_y);
    let dx = diff(e_x, s_x);
    (dy == 1 && dx <= 1) || (dy <= 1 && dx == 1)
}

/// Whether piece `p` on (s_y, s_x) could capture on (e_y, e_x).
fn can_capture(b: &Board, p: Piece, s_y: usize, s_x: usize, e_y: usize, e_x: usize) -> (r: bool)
    requires
        s_y < 8,
        s_x < 8,
        e_y < 8,
        e_x < 8,
    ensures
        r == reaches(grid_of(*b), p, s_y as int, s_x as int, e_y as int, e_x as int),
{
    match p.t {
        PT::Pawn { .. } => valid_pawn_capture(p.c, s_y, s_x, e_y, e_x),
        PT::Knight => valid_knight_jump(s_y, s_x, e_y, e_x),
        PT::Bishop => valid_bishop_jump(b, s_y, s_x, e_y, e_x),
        PT::Rook { .. } => valid_rook_jump(b, s_y, s_x, e_y, e_x),
        PT::Queen => valid_queen_jump(b, s_y, s_x, e_y, e_x),
        PT::King { .. } => valid_king_jump(s_y, s_x, e_y, e_x),
    }
}

/// Whether piece `p` on (s_y, s_x) could move to the empty (e_y, e_x).
fn can_move(b: &Board, p: Piece, s_y: usize, s_x: usize, e_y: usize, e_x: usize) -> (r: bool)
    requires
        s_y < 8,
        s_x < 8,
        e_y < 8,
        e_x < 8,
    ensures
        r == moves_to(grid_of(*b), p, s_y as int, s_x as int, e_y as int, e_x as int),
{
    match p.t {
        PT::Pawn { .. } => valid_pawn_jump(b, p.c, s_y, s_x, e_y, e_x),
        _ => can_capture(b, p, s_y, s_x, e_y, e_x),
    }
}

/// Whether a piece of the opponent of `me` could capture on `position`.
/// It asks only the movement rules, never castling, so the two never
/// call each other in a cycle.
fn is_attacked(b: &Board, position: (usize, usize), me: PC) -> (r: bool)
    requires
        position.0 < 8,
        position.1 < 8,
    ensures
        r == attacked(grid_of(*b), position.0 as int, position.1 as int, me),
{
    let g = Ghost(grid_of(*b));
    let e_y = position.0;
    let e_x = position.1;
    let mut s_y: usize = 0;
    while s_y < 8
        invariant
            s_y <= 8,
            e_y == position.0,
            e_x == position.1,
            e_y < 8,
            e_x < 8,
            g@ == grid_of(*b),
            forall|y: int, x: int|
                0 <= y < s_y && 0 <= x < 8 && #[trigger] g@(y, x) is Some && g@(y, x)->0.c
                    == me.other() ==> !reaches(g@, g@(y, x)->0, y, x, e_y as int, e_x as int),
        decreases 8 - s_y,
    {
        let mut s_x: usize = 0;
        while s_x < 8
            invariant
                s_y < 8,
                s_x <= 8,
                e_y == position.0,
                e_x == position.1,
                e_y < 8,
                e_x < 8,
                g@ == grid_of(*b),
                forall|y: int, x: int|
                    0 <= y < s_y && 0 <= x < 8 && #[trigger] g@(y, x) is Some && g@(y, x)->0.c
                        == me.other() ==> !reaches(g@, g@(y, x)->0, y, x, e_y as int, e_x as int),
                forall|x: int|
                    0 <= x < s_x && #[trigger] g@(s_y as int, x) is Some && g@(s_y as int, x)->0.c
                        == me.other() ==> !reaches(
                        g@,
                        g@(s_y as int, x)->0,
                        s_y as int,
                        x,
                        e_y as int,
                        e_x as int,
                    ),
            decreases 8 - s_x,
        {
            if let Some(p) = b[s_y][s_x] {
                let is_opponent_piece = p.c == me.opponent();
                if is_opponent_piece && can_capture(b, p, s_y, s_x, e_y, e_x) {
                    let ghost (sy, sx) = (s_y as int, s_x as int);
                    assert(on_board(sy, sx) && g@(sy, sx) is Some && g@(sy, sx)->0.c == me.other()
                        && reaches(g@, g@(sy, sx)->0, sy, sx, e_y as int, e_x as int));
                    return true;
                }
            }
            s_x = s_x + 1;
        }
        s_y = s_y + 1;
    }
    false
}


proof fn lemma_first_king_unique(g: Grid, me: PC, y1: int, x1: int, y2: int, x2: int)
    requires
        first_king(g, me, y1, x1),
        first_king(g, me, y2, x2),
    ensures
        y1 == y2 && x1 == x2,
{
    if before(y1, x1, y2, x2) {
        assert(!is_king_of(g(y1, x1), me));
    } else if before(y2, x2, y1, x1) {
        assert(!is_king_of(g(y2, x2), me));
    }
}

/// The square of the first king of `me` in row-major order.
fn find_king(b: &Board, me: PC) -> (r: (usize, usize))
    requires
        has_king(grid_of(*b), me),
    ensures
        r.0 < 8,
        r.1 < 8,
        first_king(grid_of(*b), me, r.0 as int, r.1 as int),
{
    let g = Ghost(grid_of(*b));
    let mut i: usize = 0;
    while i < 8
        invariant
            i <= 8,
            g@ == grid_of(*b),
            has_king(g@, me),
            forall|y: int, x: int|
                0 <= y < i && 0 <= x < 8 ==> !is_king_of(#[trigger] g@(y, x), me),
        decreases 8 - i,
    {
        let mut j: usize = 0;
        while j < 8
            invariant
                i < 8,
                j <= 8,
                g@ == grid_of(*b),
                forall|y: int, x: int|
                    0 <= y < i && 0 <= x < 8 ==> !is_king_of(#[trigger] g@(y, x), me),
                forall|x: int| 0 <= x < j ==> !is_king_of(#[trigger] g@(i as int, x), me),
            decreases 8 - j,
        {
            if let Some(Piece { c, t: PT::King { .. } }) = b[i][j] {
                if c == me {
                    assert(is_king_of(g@(i as int, j as int), me));
                    return (i, j);
                }
            }
            assert(!is_king_of(g@(i as int, j as int), me));
            j = j + 1;
        }
        i = i + 1;
    }
    proof {
        let (y, x) = choose|y: int, x: int| on_board(y, x) && is_king_of(#[trigger] g@(y, x), me);
        assert(!is_king_of(g@(y, x), me));
    }
    (0, 0)
}

fn is_king_attacked_on(b: &Board, me: PC) -> (r: bool)
    requires
        has_king(grid_of(*b), me),
    ensures
        r == king_attacked(grid_of(*b), me),
{
    let k = find_king(b, me);
    let r = is_attacked(b, k, me);
    proof {
        let g = grid_of(*b);
        if r {
            assert(first_king(g, me, k.0 as int, k.1 as int));
        } else {
            assert forall|y: int, x: int| #[trigger] first_king(g, me, y, x) implies !attacked(
                g,
                y,
                x,
                me,
            ) by {
                lemma_first_king_unique(g, me, y, x, k.0 as int, k.1 as int);
            }
        }
    }
    r
}

/// Whether the king of `me` is attacked. A position without a king of `me`
/// is outside this function's domain.
pub fn is_king_attacked(state: &State, me: PC) -> (r: bool)
    requires
        has_king(state.grid(), me),
    ensures
        r == king_attacked(state.grid(), me),
{
    is_king_attacked_on(&state.board, me)
}

fn castling_clear(state: &State, y: usize, queenside: bool) -> (r: bool)
    requires
        y < 8,
    ensures
        r == castle_ok(*state, y as int, queenside),
{
    let g = Ghost(state.grid());
    let turn = state.turn;
    let (rook_x, first, last, lo, hi): (usize, usize, usize, usize, usize) = if queenside {
        (0, 1, 4, 2, 4)
    } else {
        (7, 5, 7, 4, 6)
    };
    match state.board[y][rook_x] {
        Some(Piece { c, t: PT::Rook { has_moved: false } }) => {
            if c != turn {
                return false;
            }
        },
        _ => {
            return false;
        },
    }
    let mut i: usize = first;
    while i < last
        invariant
            first <= i <= last,
            first == (if queenside { 1usize } else { 5usize }),
            last == (if queenside { 4usize } else { 7usize }),
            y < 8,
            last <= 8,
            g@ == state.grid(),
            forall|j: int| first <= j < i ==> #[trigger] g@(y as int, j) is None,
        decreases last - i,
    {
        if state.board[y][i].is_some() {
            assert(g@(y as int, i as int) is Some);
            return false;
        }
        i = i + 1;
    }
    let mut i: usize = lo;
    while i <= hi
        invariant
            lo <= i <= hi + 1,
            lo == (if queenside { 2usize } else { 4usize }),
            hi == (if queenside { 4usize } else { 6usize }),
            hi < 8,
            y < 8,
            g@ == state.grid(),
            turn == state.turn,
            forall|j: int| lo <= j < i ==> !attacked(g@, y as int, j, turn),
        decreases hi + 1 - i,
    {
        if is_attacked(&state.board, (y, i), turn) {
            return false;
        }
        i = i + 1;
    }
    true
}

/// Whether `action` obeys the rules, leaving aside whether it exposes the
/// mover's king.
fn validate_action_ignore_check(state: &State, action: &Action) -> (r: bool)
    ensures
        r == valid_ignoring_check(*state, *action),
{
    if let Action::Tie = *action {
        let hash = state.hash();
        return match state.hash_to_occurences.get(&hash) {
            None => false,
            Some(x) => *x >= 3,
        };
    }
    let (s_y, s_x) = action.get_main_coords();
    let (e_y, e_x) = action.get_end_coords();
    if s_y >= 8 || s_x >= 8 || e_y >= 8 || e_x >= 8 {
        return false;
    }
    let main_piece = match state.board[s_y][s_x] {
        Some(p) => p,
        None => {
            return false;
        },
    };
    if main_piece.c != state.turn {
        return false;
    }
    let b = &state.board;
    match *action {
        Action::Jump { .. } => {
            if b[e_y][e_x].is_some() {
                return false;
            }
            can_move(b, main_piece, s_y, s_x, e_y, e_x)
        },
        Action::Capture { .. } => {
            let capture_piece = match b[e_y][e_x] {
                Some(p) => p,
                None => {
                    return false;
                },
            };
            if main_piece.c == capture_piece.c {
                return false;
            }
            can_capture(b, main_piece, s_y, s_x, e_y, e_x)
        },
        Action::Castling { queenside, .. } => {
            match main_piece.t {
                PT::King { has_moved: false } => {},
                _ => {
                    return false;
                },
            }
            if s_y != 0 && s_y != 7 {
                return false;
            }
            if s_x != 4 {
                return false;
            }
            castling_clear(state, s_y, queenside)
        },
        Action::Promotion { to_piece, .. } => {
            match main_piece.t {
                PT::Pawn { .. } => {},
                _ => {
                    return false;
                },
            }
            match to_piece {
                PT::Bishop => {},
                PT::Rook { has_moved: true } => {},
                PT::Knight => {},
                PT::Queen => {},
                _ => {
                    return false;
                },
            }
            if (main_piece.c == PC::Black && e_y != 7) || (main_piece.c == PC::White && e_y != 0) {
                return false;
            }
            match b[e_y][e_x] {
                Some(q) => q.c != main_piece.c && valid_pawn_capture(
                    main_piece.c,
                    s_y,
                    s_x,
                    e_y,
                    e_x,
                ),
                None => valid_pawn_jump(b, main_piece.c, s_y, s_x, e_y, e_x),
            }
        },
        Action::Enpassant { .. } => {
            if b[e_y][e_x].is_some() {
                return false;
            }
            let capture_piece = match b[s_y][e_x] {
                Some(p) => p,
                None => {
                    return false;
                },
            };
            if main_piece.c == capture_piece.c {
                return false;
            }
            match main_piece.t {
                PT::Pawn { .. } => {},
                _ => {
                    return false;
                },
            }
            match capture_piece.t {
                PT::Pawn { last_jump } => {
                    if state.moves == 0 || last_jump != Some(state.moves - 1) {
                        return false;
                    }
                },
                _ => {
                    return false;
                },
            }
            let beside = e_x + 1 == s_x || e_x == s_x + 1;
            match main_piece.c {
                PC::Black => s_y == 4 && e_y == 5 && beside,
                PC::White => s_y == 3 && e_y == 2 && beside,
            }
        },
        Action::Tie => true,
    }
}


/// A move that obeys the rules leaves the mover with a king.
pub proof fn lemma_mover_keeps_king(s: State, a: Action)
    requires
        valid_ignoring_check(s, a),
        has_king(s.grid(), s.turn),
    ensures
        has_king(after(s, a), s.turn),
{
    let g = s.grid();
    let (ky, kx) = choose|y: int, x: int| on_board(y, x) && is_king_of(#[trigger] g(y, x), s.turn);
    let (sy, sx) = a.main_coords();
    let m = s.at(sy as int, sx as int)->0;
    let (ey, ex) = a.end_coords();
    if a is Tie {
        assert(is_king_of(after(s, a)(ky, kx), s.turn));
    } else if m.t is King {
        assert(on_board(ey as int, ex as int));
        assert(is_king_of(after(s, a)(ey as int, ex as int), s.turn));
    } else {
        assert(after_at(s, a, ky, kx) == s.at(ky, kx));
        assert(is_king_of(after(s, a)(ky, kx), s.turn));
    }
}

/// Whether `action` is fully legal: it obeys the rules and does not leave
/// the mover's king attacked. A draw claim is legal once the position has
/// occurred three times, and the mover is not in check.
pub fn validate_action(state: &State, action: &Action) -> (r: bool)
    requires
        has_king(state.grid(), state.turn),
    ensures
        r == legal(*state, *action),
{
    if !validate_action_ignore_check(state, action) {
        return false;
    }
    let after_board = apply_to_board(state, action);
    proof {
        lemma_mover_keeps_king(*state, *action);
        assert(grid_of(after_board) =~= after(*state, *action));
    }
    !is_king_attacked_on(&after_board, state.turn)
}


/// The displacements a piece of its kind can make at all, ignoring the
/// board: the targets worth classifying when moves are enumerated. A king
/// also gets the two-file steps of castling.
pub open spec fn shape_ok(p: Piece, sy: int, sx: int, ey: int, ex: int) -> bool {
    let dy = abs(ey - sy);
    let dx = abs(ex - sx);
    match p.t {
        PT::Pawn { .. } => (dy == 1 && dx <= 1) || (dy == 2 && dx == 0),
        PT::Knight => knight_ok(sy, sx, ey, ex),
        PT::Bishop => dy == dx && dy != 0,
        PT::Rook { .. } => (dy == 0) != (dx == 0),
        PT::Queen => (dy == dx && dy != 0) || ((dy == 0) != (dx == 0)),
        PT::King { .. } => king_step_ok(sy, sx, ey, ex) || (dy == 0 && dx == 2),
    }
}

/// Every legal move other than a promotion or a draw claim goes to a
/// square of the right shape, and reading that pair of squares gives it back.
proof fn lemma_legal_is_found(s: State, a: Action)
    requires
        valid_ignoring_check(s, a),
        !(a is Tie),
        !(a is Promotion),
    ensures
        shape_ok(
            s.at(a.main_coords().0 as int, a.main_coords().1 as int)->0,
            a.main_coords().0 as int,
            a.main_coords().1 as int,
            a.end_coords().0 as int,
            a.end_coords().1 as int,
        ),
        classify(s, a.main_coords(), a.end_coords(), None) == Some(a),
{
    let g = s.grid();
    if let Action::Castling { s_y, queenside, .. } = a {
        if queenside {
            assert(g(s_y as int, 2) is None);
        } else {
            assert(g(s_y as int, 6) is None);
        }
    }
}

/// Every legal promotion starts next to the last row and moves at most one
/// file aside.
proof fn lemma_legal_promotion(s: State, a: Action)
    requires
        valid_ignoring_check(s, a),
        a is Promotion,
    ensures
        (a->Promotion_e_y == 0 && a->Promotion_s_y == 1) || (a->Promotion_e_y == 7
            && a->Promotion_s_y == 6),
        abs(a->Promotion_e_x - a->Promotion_s_x) <= 1,
        promotable(a->to_piece),
{
}

/// `b` is a promotion from (s_y, s_x) to row `e_y`.
pub open spec fn promotion_into(b: Action, s_y: usize, s_x: usize, e_y: usize) -> bool {
    match b {
        Action::Promotion { s_y: sy, s_x: sx, e_y: ey, .. } => sy == s_y && sx == s_x && ey == e_y,
        _ => false,
    }
}

proof fn lemma_push_contains<T>(v: Seq<T>, x: T, b: T)
    ensures
        v.push(x).contains(b) <==> (v.contains(b) || b == x),
{
    if v.contains(b) {
        let i = choose|i: int| 0 <= i < v.len() && v[i] == b;
        assert(v.push(x)[i] == b);
    }
    if b == x {
        assert(v.push(x)[v.len() as int] == b);
    }
    if v.push(x).contains(b) {
        let i = choose|i: int| 0 <= i < v.push(x).len() && v.push(x)[i] == b;
        if i < v.len() {
            assert(v[i] == b);
        }
    }
}

proof fn lemma_push_distinct<T>(v: Seq<T>, x: T)
    requires
        v.no_duplicates(),
        !v.contains(x),
    ensures
        v.push(x).no_duplicates(),
{
    assert forall|i: int, j: int| 0 <= i < j < v.push(x).len() implies v.push(x)[i] != v.push(x)[j] by {
        if j == v.len() {
            assert(v[i] == v.push(x)[i]);
        } else {
            assert(v[i] == v.push(x)[i] && v[j] == v.push(x)[j]);
        }
    }
}

/// Reading a pair of squares gives a move from the first to the second.
proof fn lemma_classify_coords(s: State, st: (usize, usize), en: (usize, usize))
    requires
        classify(s, st, en, None) is Some,
    ensures
        classify(s, st, en, None)->0.main_coords() == st,
        classify(s, st, en, None)->0.end_coords() == en,
        !(classify(s, st, en, None)->0 is Promotion),
        !(classify(s, st, en, None)->0 is Tie),
{
}

/// Appends `action` to `found` when it is legal.
fn try_push(state: &State, action: Action, found: &mut Vec<Action>)
    requires
        has_king(state.grid(), state.turn),
    ensures
        final(found)@ == if legal(*state, action) {
            old(found)@.push(action)
        } else {
            old(found)@
        },
        forall|b: Action| #[trigger] final(found)@.contains(b) <==> (old(found)@.contains(b) || (
        b == action && legal(*state, action))),
        old(found)@.no_duplicates() && !old(found)@.contains(action) ==> final(found)@.no_duplicates(),
{
    if validate_action(state, &action) {
        proof {
            if old(found)@.no_duplicates() && !old(found)@.contains(action) {
                lemma_push_distinct(old(found)@, action);
            }
        }
        found.push(action);
    }
    proof {
        assert forall|b: Action| #[trigger] final(found)@.contains(b) <==> (old(found)@.contains(b) || (
        b == action && legal(*state, action))) by {
            lemma_push_contains(old(found)@, action, b);
        }
    }
}

/// Appends each legal promotion from (s_y, s_x) to row `e_y` into piece kind
/// `pt`.
fn push_promotions(
    state: &State,
    s_y: usize,
    s_x: usize,
    e_y: usize,
    pt: PT,
    found: &mut Vec<Action>,
)
    requires
        has_king(state.grid(), state.turn),
        s_x < 8,
    ensures
        forall|b: Action| #[trigger] final(found)@.contains(b) <==> (old(found)@.contains(b) || (
        legal(*state, b) && promotion_into(b, s_y, s_x, e_y) && b->to_piece == pt)),
        old(found)@.no_duplicates() && (forall|b: Action| #[trigger] old(found)@.contains(b)
            ==> !(promotion_into(b, s_y, s_x, e_y) && b->to_piece == pt))
            ==> final(found)@.no_duplicates(),
{
    let ghost before = old(found)@;
    let ghost wanted = |b: Action|
        legal(*state, b) && promotion_into(b, s_y, s_x, e_y) && b->to_piece == pt;
    if s_x >= 1 {
        try_push(state, Action::Promotion { s_y, s_x, e_y, e_x: s_x - 1, to_piece: pt }, found);
    }
    try_push(state, Action::Promotion { s_y, s_x, e_y, e_x: s_x, to_piece: pt }, found);
    if s_x + 1 < 8 {
        try_push(state, Action::Promotion { s_y, s_x, e_y, e_x: s_x + 1, to_piece: pt }, found);
    }
    proof {
        assert forall|b: Action| wanted(b) implies #[trigger] found@.contains(b) by {
            lemma_legal_promotion(*state, b);
        }
    }
}



fn has_shape(p: &Piece, s_y: usize, s_x: usize, e_y: usize, e_x: usize) -> (r: bool)
    ensures
        r == shape_ok(*p, s_y as int, s_x as int, e_y as int, e_x as int),
{
    let dy = diff(e_y, s_y);
    let dx = diff(e_x, s_x);
    match p.t {
        PT::Pawn { .. } => (dy == 1 && dx <= 1) || (dy == 2 && dx == 0),
        PT::Knight => valid_knight_jump(s_y, s_x, e_y, e_x),
        PT::Bishop => dy == dx && dy != 0,
        PT::Rook { .. } => (dy == 0) != (dx == 0),
        PT::Queen => (dy == dx && dy != 0) || ((dy == 0) != (dx == 0)),
        PT::King { .. } => valid_king_jump(s_y, s_x, e_y, e_x) || (dy == 0 && dx == 2),
    }
}

/// The squares worth trying as targets of `piece` on (s_y, s_x): those on
/// the board that its kind can reach by displacement alone (see `shape_ok`).
fn interesting_locations(s_y: usize, s_x: usize, piece: &Piece) -> (r: Vec<(usize, usize)>)
    ensures
        forall|q: (usize, usize)| #[trigger] r@.contains(q) <==> (q.0 < 8 && q.1 < 8 && shape_ok(
            *piece,
            s_y as int,
            s_x as int,
            q.0 as int,
            q.1 as int,
        )),
        r@.no_duplicates(),
{
    let mut found: Vec<(usize, usize)> = Vec::new();
    let mut e_y: usize = 0;
    while e_y < 8
        invariant
            e_y <= 8,
            found@.no_duplicates(),
            forall|q: (usize, usize)| #[trigger] found@.contains(q) <==> (q.0 < e_y && q.1 < 8 && shape_ok(
                *piece,
                s_y as int,
                s_x as int,
                q.0 as int,
                q.1 as int,
            )),
        decreases 8 - e_y,
    {
        let mut e_x: usize = 0;
        while e_x < 8
            invariant
                e_y < 8,
                e_x <= 8,
                found@.no_duplicates(),
                forall|q: (usize, usize)| #[trigger] found@.contains(q) <==> ((q.0 < e_y || (q.0 == e_y
                    && q.1 < e_x)) && q.1 < 8 && shape_ok(
                    *piece,
                    s_y as int,
                    s_x as int,
                    q.0 as int,
                    q.1 as int,
                )),
            decreases 8 - e_x,
        {
            let ghost before = found@;
            if has_shape(piece, s_y, s_x, e_y, e_x) {
                proof {
                    lemma_push_distinct(before, (e_y, e_x));
                }
                found.push((e_y, e_x));
            }
            proof {
                assert forall|q: (usize, usize)| #[trigger] found@.contains(q) <==> ((q.0 < e_y || (q.0
                    == e_y && q.1 < e_x + 1)) && q.1 < 8 && shape_ok(
                    *piece,
                    s_y as int,
                    s_x as int,
                    q.0 as int,
                    q.1 as int,
                )) by {
                    lemma_push_contains(before, (e_y, e_x), q);
                }
            }
            e_x = e_x + 1;
        }
        e_y = e_y + 1;
    }
    found
}

/// A legal move from (s_y, s_x) other than a draw claim.
pub open spec fn legal_from(s: State, a: Action, s_y: usize, s_x: usize) -> bool {
    legal(s, a) && !(a is Tie) && a.main_coords() == (s_y, s_x)
}

/// A legal move from (s_y, s_x) other than a promotion or a draw claim.
pub open spec fn plain_from(s: State, a: Action, s_y: int, s_x: int) -> bool {
    legal(s, a) && !(a is Tie) && !(a is Promotion) && a.main_coords().0 == s_y
        && a.main_coords().1 == s_x
}

/// All fully legal moves from square (s_y, s_x); empty for a square off
/// the board or without a piece of the side to move.
pub fn actions_for_location(state: &State, s_y: usize, s_x: usize) -> (r: Vec<Action>)
    requires
        has_king(state.grid(), state.turn),
    ensures
        forall|a: Action| #[trigger] r@.contains(a) <==> (legal(*state, a) && !(a is Tie)
            && a.main_coords() == (s_y, s_x)),
        r@.no_duplicates(),
{
    let mut found: Vec<Action> = Vec::new();
    if s_y >= 8 || s_x >= 8 {
        return found;
    }
    let mut e_y: usize = 0;
    while e_y < 8
        invariant
            e_y <= 8,
            s_y < 8,
            s_x < 8,
            has_king(state.grid(), state.turn),
            found@.no_duplicates(),
            forall|b: Action| #[trigger] found@.contains(b) ==> legal_from(*state, b, s_y, s_x) && !(b is Promotion)
                && b.end_coords().0 < e_y,
            forall|a: Action|
                plain_from(*state, a, s_y as int, s_x as int) && a.end_coords().0 < e_y
                    ==> #[trigger] found@.contains(a),
        decreases 8 - e_y,
    {
        let mut e_x: usize = 0;
        while e_x < 8
            invariant
                e_y < 8,
                e_x <= 8,
                s_y < 8,
                s_x < 8,
                has_king(state.grid(), state.turn),
                found@.no_duplicates(),
                forall|b: Action| #[trigger] found@.contains(b) ==> legal_from(*state, b, s_y, s_x) && !(b is Promotion)
                    && (b.end_coords().0 < e_y || (b.end_coords().0 == e_y && b.end_coords().1 < e_x)),
                forall|a: Action|
                    plain_from(*state, a, s_y as int, s_x as int) && (a.end_coords().0 < e_y || (
                    a.end_coords().0 == e_y && a.end_coords().1 < e_x)) ==> #[trigger] found@.contains(a),
            decreases 8 - e_x,
        {
            if let Some(action) = Action::from_context_and_coords(state, (s_y, s_x), (e_y, e_x), None) {
                proof {
                    lemma_classify_coords(*state, (s_y, s_x), (e_y, e_x));
                }
                try_push(state, action, &mut found);
            }
            proof {
                assert forall|a: Action|
                    plain_from(*state, a, s_y as int, s_x as int) && (a.end_coords().0 < e_y || (
                    a.end_coords().0 == e_y && a.end_coords().1 < e_x + 1)) implies #[trigger] found@.contains(a) by {
                    lemma_legal_is_found(*state, a);
                }
            }
            e_x = e_x + 1;
        }
        e_y = e_y + 1;
    }
    let ghost plain = found@;
    push_promotions(state, s_y, s_x, 0, PT::Queen, &mut found);
    push_promotions(state, s_y, s_x, 7, PT::Queen, &mut found);
    push_promotions(state, s_y, s_x, 0, PT::Rook { has_moved: true }, &mut found);
    push_promotions(state, s_y, s_x, 7, PT::Rook { has_moved: true }, &mut found);
    push_promotions(state, s_y, s_x, 0, PT::Bishop, &mut found);
    push_promotions(state, s_y, s_x, 7, PT::Bishop, &mut found);
    push_promotions(state, s_y, s_x, 0, PT::Knight, &mut found);
    push_promotions(state, s_y, s_x, 7, PT::Knight, &mut found);
    proof {
        assert forall|a: Action| #[trigger] found@.contains(a) <==> legal_from(*state, a, s_y, s_x) by {
            if legal_from(*state, a, s_y, s_x) {
                if a is Promotion {
                    lemma_legal_promotion(*state, a);
                } else {
                    assert(plain.contains(a));
                }
            }
        }
    }
    found
}


/// The main coordinates come before row `y`, or lie in row `y` before
/// column `x`.
pub open spec fn starts_before(a: Action, y: int, x: int) -> bool {
    a.main_coords().0 < y || (a.main_coords().0 == y && a.main_coords().1 < x)
}

/// Collects the legal moves of the side to move, in the order pieces are
/// met row by row, then promotions, then a draw claim. With `stop_early`
/// it stops at the first legal move found.
fn scan(state: &State, stop_early: bool) -> (r: Vec<Action>)
    requires
        has_king(state.grid(), state.turn),
    ensures
        forall|b: Action| #[trigger] r@.contains(b) ==> legal(*state, b),
        !stop_early ==> forall|a: Action| legal(*state, a) ==> #[trigger] r@.contains(a),
        stop_early ==> (r@.len() > 0 <==> exists|a: Action| legal(*state, a)),
        r@.no_duplicates(),
{
    let mut found: Vec<Action> = Vec::new();
    let mut s_y: usize = 0;
    while s_y < 8
        invariant
            s_y <= 8,
            has_king(state.grid(), state.turn),
            found@.no_duplicates(),
            forall|b: Action| #[trigger] found@.contains(b) ==> !(b is Tie) && !(b is Promotion)
                && starts_before(b, s_y as int, 0),
            forall|b: Action| #[trigger] found@.contains(b) ==> legal(*state, b),
            stop_early ==> found@.len() == 0,
            forall|a: Action|
                legal(*state, a) && !(a is Tie) && !(a is Promotion) && starts_before(a, s_y as int, 0)
                    ==> #[trigger] found@.contains(a),
        decreases 8 - s_y,
    {
        let mut s_x: usize = 0;
        while s_x < 8
            invariant
                s_y < 8,
                s_x <= 8,
                has_king(state.grid(), state.turn),
                found@.no_duplicates(),
                forall|b: Action| #[trigger] found@.contains(b) ==> !(b is Tie) && !(b is Promotion)
                    && starts_before(b, s_y as int, s_x as int),
                forall|b: Action| #[trigger] found@.contains(b) ==> legal(*state, b),
                stop_early ==> found@.len() == 0,
                forall|a: Action|
                    legal(*state, a) && !(a is Tie) && !(a is Promotion) && starts_before(
                        a,
                        s_y as int,
                        s_x as int,
                    ) ==> #[trigger] found@.contains(a),
            decreases 8 - s_x,
        {
            if let Some(piece) = state.board[s_y][s_x] {
                if piece.c == state.turn {
                    let targets = interesting_locations(s_y, s_x, &piece);
                    let mut j: usize = 0;
                    while j < targets.len()
                        invariant
                            s_y < 8,
                            s_x < 8,
                            j <= targets@.len(),
                            state.at(s_y as int, s_x as int) == Some(piece),
                            has_king(state.grid(), state.turn),
                            forall|q: (usize, usize)| #[trigger] targets@.contains(q) <==> (q.0 < 8 && q.1
                                < 8 && shape_ok(piece, s_y as int, s_x as int, q.0 as int, q.1 as int)),
                            targets@.no_duplicates(),
                            found@.no_duplicates(),
                            forall|b: Action| #[trigger] found@.contains(b) ==> !(b is Tie) && !(b is Promotion)
                                && (starts_before(b, s_y as int, s_x as int) || (b.main_coords() == (s_y, s_x)
                                && targets@.take(j as int).contains(b.end_coords()))),
                            forall|b: Action| #[trigger] found@.contains(b) ==> legal(*state, b),
                            stop_early ==> found@.len() == 0,
                            forall|a: Action|
                                legal(*state, a) && !(a is Tie) && !(a is Promotion) && starts_before(
                                    a,
                                    s_y as int,
                                    s_x as int,
                                ) ==> #[trigger] found@.contains(a),
                            forall|k: int, a: Action|
                                0 <= k < j && plain_from(*state, a, s_y as int, s_x as int)
                                    && a.end_coords() == #[trigger] targets@[k] ==> #[trigger] found@.contains(a),
                        decreases targets@.len() - j,
                    {
                        let (e_y, e_x) = targets[j];
                        assert(targets@.contains(targets@[j as int]));
                        if let Some(action) = Action::from_context_and_coords(
                            state,
                            (s_y, s_x),
                            (e_y, e_x),
                            None,
                        ) {
                            proof {
                                lemma_classify_coords(*state, (s_y, s_x), (e_y, e_x));
                                assert(targets@.take(j + 1) =~= targets@.take(j as int).push(targets@[j as int]));
                                if targets@.take(j as int).contains((e_y, e_x)) {
                                    let k = choose|k: int| 0 <= k < j && targets@.take(j as int)[k] == (e_y, e_x);
                                    assert(targets@[k] == targets@[j as int]);
                                }
                            }
                            try_push(state, action, &mut found);
                            if stop_early && found.len() > 0 {
                                proof {
                                    assert(found@.contains(found@[0]));
                                }
                                return found;
                            }
                        }
                        proof {
                            assert forall|k: int, a: Action|
                                0 <= k < j + 1 && plain_from(*state, a, s_y as int, s_x as int)
                                    && a.end_coords() == #[trigger] targets@[k] implies #[trigger] found@.contains(a) by {
                                lemma_legal_is_found(*state, a);
                            }
                            assert(targets@.take(j + 1) =~= targets@.take(j as int).push(targets@[j as int]));
                            assert forall|b: Action| #[trigger] found@.contains(b) implies !(b is Tie) && !(b is Promotion)
                                && (starts_before(b, s_y as int, s_x as int) || (b.main_coords() == (s_y, s_x)
                                && targets@.take(j + 1).contains(b.end_coords()))) by {
                                if targets@.take(j as int).contains(b.end_coords()) {
                                    let k = choose|k: int| 0 <= k < j && targets@.take(j as int)[k] == b.end_coords();
                                    assert(targets@.take(j + 1)[k] == b.end_coords());
                                }
                                if !starts_before(b, s_y as int, s_x as int) && !targets@.take(j as int).contains(b.end_coords()) {
                                    lemma_classify_coords(*state, (s_y, s_x), (e_y, e_x));
                                    assert(targets@.take(j + 1)[j as int] == b.end_coords());
                                }
                            }
                        }
                        j = j + 1;
                    }
                    proof {
                        assert forall|a: Action|
                            legal(*state, a) && !(a is Tie) && !(a is Promotion) && starts_before(
                                a,
                                s_y as int,
                                s_x as int + 1,
                            ) implies #[trigger] found@.contains(a) by {
                            if !starts_before(a, s_y as int, s_x as int) {
                                lemma_legal_is_found(*state, a);
                                assert(targets@.contains(a.end_coords()));
                                let k = choose|k: int| 0 <= k < targets@.len() && targets@[k] == a.end_coords();
                                assert(targets@[k] == a.end_coords());
                            }
                        }
                    }
                }
            }
            s_x = s_x + 1;
        }
        s_y = s_y + 1;
    }
    let mut s_x: usize = 0;
    while s_x < 8
        invariant
            s_x <= 8,
            has_king(state.grid(), state.turn),
            found@.no_duplicates(),
            forall|b: Action| #[trigger] found@.contains(b) ==> !(b is Tie) && (!(b is Promotion)
                || b.main_coords().1 < s_x),
            forall|b: Action| #[trigger] found@.contains(b) ==> legal(*state, b),
            stop_early ==> found@.len() == 0,
            forall|a: Action|
                legal(*state, a) && !(a is Tie) && !(a is Promotion) ==> #[trigger] found@.contains(a),
            forall|a: Action|
                legal(*state, a) && a is Promotion && a.main_coords().1 < s_x ==> #[trigger] found@.contains(a),
        decreases 8 - s_x,
    {
        let ghost before = found@;
        push_promotions(state, 1, s_x, 0, PT::Queen, &mut found);
        push_promotions(state, 6, s_x, 7, PT::Queen, &mut found);
        push_promotions(state, 1, s_x, 0, PT::Rook { has_moved: true }, &mut found);
        push_promotions(state, 6, s_x, 7, PT::Rook { has_moved: true }, &mut found);
        push_promotions(state, 1, s_x, 0, PT::Bishop, &mut found);
        push_promotions(state, 6, s_x, 7, PT::Bishop, &mut found);
        push_promotions(state, 1, s_x, 0, PT::Knight, &mut found);
        push_promotions(state, 6, s_x, 7, PT::Knight, &mut found);
        if stop_early && found.len() > 0 {
            proof {
                assert(found@.contains(found@[0]));
            }
            return found;
        }
        proof {
            assert forall|a: Action|
                legal(*state, a) && a is Promotion && a.main_coords().1 < s_x + 1 implies #[trigger] found@.contains(a) by {
                lemma_legal_promotion(*state, a);
                if a.main_coords().1 < s_x {
                    assert(before.contains(a));
                }
            }
        }
        s_x = s_x + 1;
    }
    try_push(state, Action::Tie, &mut found);
    proof {
        assert forall|a: Action| legal(*state, a) implies #[trigger] found@.contains(a) by {
            if a is Tie {
            } else if a is Promotion {
                lemma_legal_promotion(*state, a);
            }
        }
        if stop_early && found@.len() == 0 {
            assert forall|a: Action| !legal(*state, a) by {
                if legal(*state, a) {
                    assert(found@.contains(a));
                }
            }
        }
        if found@.len() > 0 {
            assert(found@.contains(found@[0]));
        }
    }
    found
}

/// Every fully legal move of the side to move, a draw claim included when
/// the position has occurred three times.
pub fn actions(state: &State) -> (r: Vec<Action>)
    requires
        has_king(state.grid(), state.turn),
    ensures
        forall|a: Action| #[trigger] r@.contains(a) <==> legal(*state, a),
        r@.no_duplicates(),
{
    scan(state, false)
}

/// Whether the side to move has any legal move; stops at the first found.
pub fn any_actions(state: &State) -> (r: bool)
    requires
        has_king(state.grid(), state.turn),
    ensures
        r == exists|a: Action| legal(*state, a),
{
    let found = scan(state, true);
    found.len() > 0
}


/// Every legal move, a draw claim included, leaves the mover's king
/// unattacked once it is played.
pub proof fn lemma_legal_leaves_king_safe(s: State, a: Action, t: State)
    requires
        legal(s, a),
        is_successor(s, a, t),
    ensures
        !king_attacked(t.grid(), s.turn),
{
    lemma_successor_grid(s, a, t);
}

/// The board of a successor is the board after the move.
pub proof fn lemma_successor_grid(s: State, a: Action, t: State)
    requires
        is_successor(s, a, t),
    ensures
        t.grid() == after(s, a),
{
    assert forall|y: int, x: int| #[trigger] t.grid()(y, x) == after(s, a)(y, x) by {
        if on_board(y, x) {
            assert(t.at(y, x) == after_at(s, a, y, x));
        }
    }
    assert(t.grid() =~= after(s, a));
}

/// A move that obeys the rules, played while the opponent's king is not
/// attacked, leaves the opponent a king.
pub proof fn lemma_opponent_keeps_king(s: State, a: Action)
    requires
        valid_ignoring_check(s, a),
        !(a is Tie),
        has_king(s.grid(), s.turn.other()),
        !king_attacked(s.grid(), s.turn.other()),
    ensures
        has_king(after(s, a), s.turn.other()),
{
    let g = s.grid();
    let o = s.turn.other();
    let (ky, kx) = choose|y: int, x: int| on_board(y, x) && is_king_of(#[trigger] g(y, x), o);
    if after_at(s, a, ky, kx) == s.at(ky, kx) {
        assert(is_king_of(after(s, a)(ky, kx), o));
    } else {
        let (sy, sx) = a.main_coords();
        let m = s.at(sy as int, sx as int)->0;
        if exists|y: int, x: int|
            on_board(y, x) && is_king_of(#[trigger] g(y, x), o) && (y != ky || x != kx) {
            let (y2, x2) = choose|y: int, x: int|
                on_board(y, x) && is_king_of(#[trigger] g(y, x), o) && (y != ky || x != kx);
            assert(after_at(s, a, y2, x2) == s.at(y2, x2));
            assert(is_king_of(after(s, a)(y2, x2), o));
        } else {
            assert(first_king(g, o, ky, kx));
            assert(on_board(sy as int, sx as int) && g(sy as int, sx as int) is Some);
            assert(reaches(g, m, sy as int, sx as int, ky, kx));
            assert(attacked(g, ky, kx, o));
        }
    }
}


/// Once the position reached by a move has occurred three times a draw may
/// be claimed in it (unless the side to move is in check); once it has
/// occurred five times the game is drawn; and a drawn game stays drawn.
pub proof fn lemma_repetition(s: State, a: Action, t: State)
    requires
        is_successor(s, a, t),
    ensures
        t.occurrences() >= 3 && !king_attacked(t.grid(), t.turn) ==> legal(t, Action::Tie),
        t.occurrences() >= 5 ==> t.drawn,
        s.drawn ==> t.drawn,
{
    assert(t.grid() =~= after(t, Action::Tie));
}

/// An en passant capture obeys the rules only on the move right after the
/// captured pawn's two-square advance: the pawn beside the mover records
/// that advance as the previous move, so one move later it no longer does.
pub proof fn lemma_en_passant_window(s: State, a: Action)
    requires
        valid_ignoring_check(s, a),
        a is Enpassant,
    ensures
        s.moves >= 1,
        s.at(a->Enpassant_s_y as int, a->Enpassant_e_x as int) == Some(
            Piece { c: s.turn.other(), t: PT::Pawn { last_jump: Some((s.moves - 1) as usize) } },
        ),
{
}

/// A pawn that advances two rows records the move index of that advance.
pub proof fn lemma_double_advance_recorded(s: State, a: Action, t: State)
    requires
        valid_ignoring_check(s, a),
        is_successor(s, a, t),
        a is Jump,
        s.at(a->Jump_s_y as int, a->Jump_s_x as int)->0.t is Pawn,
        abs(a->Jump_e_y - a->Jump_s_y) == 2,
    ensures
        t.at(a->Jump_e_y as int, a->Jump_e_x as int) == Some(
            Piece {
                c: s.turn,
                t: PT::Pawn { last_jump: Some(s.moves) },
            },
        ),
{
    assert(on_board(a->Jump_e_y as int, a->Jump_e_x as int));
}


/// Whether `me` has a king on the board.
pub fn has_king_of(state: &State, me: PC) -> (r: bool)
    ensures
        r == has_king(state.grid(), me),
{
    let g = Ghost(state.grid());
    let mut i: usize = 0;
    while i < 8
        invariant
            i <= 8,
            g@ == state.grid(),
            forall|y: int, x: int|
                0 <= y < i && 0 <= x < 8 ==> !is_king_of(#[trigger] g@(y, x), me),
        decreases 8 - i,
    {
        let mut j: usize = 0;
        while j < 8
            invariant
                i < 8,
                j <= 8,
                g@ == state.grid(),
                forall|y: int, x: int|
                    0 <= y < i && 0 <= x < 8 ==> !is_king_of(#[trigger] g@(y, x), me),
                forall|x: int| 0 <= x < j ==> !is_king_of(#[trigger] g@(i as int, x), me),
            decreases 8 - j,
        {
            if let Some(Piece { c, t: PT::King { .. } }) = state.board[i][j] {
                if c == me {
                    assert(is_king_of(g@(i as int, j as int), me));
                    return true;
                }
            }
            assert(!is_king_of(g@(i as int, j as int), me));
            j = j + 1;
        }
        i = i + 1;
    }
    false
}

} // verus!
