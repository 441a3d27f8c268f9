//! Moves: a closed set of kinds with their coordinates, how a pair of squares
//! is read as a move, and the move's notation.
use vstd::prelude::*;
use crate::state::{glyph, push_char, Piece, State, PT};

verus! {

#[derive(Clone, PartialEq, Eq, Copy, Debug, Structural)]
pub enum Action {
    Jump { s_y: usize, s_x: usize, e_y: usize, e_x: usize },
    Capture { s_y: usize, s_x: usize, e_y: usize, e_x: usize },
    Castling { s_y: usize, s_x: usize, queenside: bool },
    Promotion { s_y: usize, s_x: usize, e_y: usize, e_x: usize, to_piece: PT },
    Enpassant { s_y: usize, s_x: usize, e_y: usize, e_x: usize },
    Tie,
}

/// The rank number (1 to 8) of row `i`.
pub open spec fn rank_of(i: int) -> int {
    8 - i
}

/// The decimal digit of `n`, for `1 <= n <= 8`.
pub open spec fn digit(n: int) -> char {
    if n == 1 {
        '1'
    } else if n == 2 {
        '2'
    } else if n == 3 {
        '3'
    } else if n == 4 {
        '4'
    } else if n == 5 {
        '5'
    } else if n == 6 {
        '6'
    } else if n == 7 {
        '7'
    } else {
        '8'
    }
}

/// The letter of column `i`: 'a' for 0 to 'h' for 7.
pub open spec fn file_letter(i: int) -> char {
    if i == 0 {
        'a'
    } else if i == 1 {
        'b'
    } else if i == 2 {
        'c'
    } else if i == 3 {
        'd'
    } else if i == 4 {
        'e'
    } else if i == 5 {
        'f'
    } else if i == 6 {
        'g'
    } else {
        'h'
    }
}

fn to_row(i: usize) -> (r: usize)
    requires
        i < 8,
    ensures
        r == rank_of(i as int),
{
    8 - i
}

fn to_column(i: usize) -> (r: char)
    requires
        i < 8,
    ensures
        r == file_letter(i as int),
{
    match i {
        0 => 'a',
        1 => 'b',
        2 => 'c',
        3 => 'd',
        4 => 'e',
        5 => 'f',
        6 => 'g',
        _ => 'h',
    }
}

fn digit_char(n: usize) -> (r: char)
    requires
        1 <= n <= 8,
    ensures
        r == digit(n as int),
{
    match n {
        1 => '1',
        2 => '2',
        3 => '3',
        4 => '4',
        5 => '5',
        6 => '6',
        7 => '7',
        _ => '8',
    }
}

impl Action {
    /// The square the move starts from; (0, 0) for a draw claim.
    pub open spec fn main_coords(self) -> (usize, usize) {
        match self {
            Action::Jump { s_y, s_x, .. } => (s_y, s_x),
            Action::Capture { s_y, s_x, .. } => (s_y, s_x),
            Action::Castling { s_y, s_x, .. } => (s_y, s_x),
            Action::Promotion { s_y, s_x, .. } => (s_y, s_x),
            Action::Enpassant { s_y, s_x, .. } => (s_y, s_x),
            Action::Tie => (0, 0),
        }
    }

    /// The square the moving piece ends on; (0, 0) for a draw claim.
    pub open spec fn end_coords(self) -> (usize, usize) {
        match self {
            Action::Jump { e_y, e_x, .. } => (e_y, e_x),
            Action::Capture { e_y, e_x, .. } => (e_y, e_x),
            Action::Castling { s_y, queenside, .. } => if queenside {
                (s_y, 2)
            } else {
                (s_y, 6)
            },
            Action::Promotion { e_y, e_x, .. } => (e_y, e_x),
            Action::Enpassant { e_y, e_x, .. } => (e_y, e_x),
            Action::Tie => (0, 0),
        }
    }

    /// Every coordinate of the move lies on the board.
    pub open spec fn coords_ok(self) -> bool {
        let (sy, sx) = self.main_coords();
        let (ey, ex) = self.end_coords();
        sy < 8 && sx < 8 && ey < 8 && ex < 8
    }

    pub fn get_main_coords(&self) -> (r: (usize, usize))
        ensures
            r == self.main_coords(),
    {
        match self {
            Action::Jump { s_y, s_x, .. } => (*s_y, *s_x),
            Action::Capture { s_y, s_x, .. } => (*s_y, *s_x),
            Action::Castling { s_y, s_x, .. } => (*s_y, *s_x),
            Action::Promotion { s_y, s_x, .. } => (*s_y, *s_x),
            Action::Enpassant { s_y, s_x, .. } => (*s_y, *s_x),
            Action::Tie => (0, 0),
        }
    }

    pub fn get_end_coords(&self) -> (r: (usize, usize))
        ensures
            r == self.end_coords(),
    {
        match self {
            Action::Jump { e_y, e_x, .. } => (*e_y, *e_x),
            Action::Capture { e_y, e_x, .. } => (*e_y, *e_x),
            Action::Castling { s_y, queenside, .. } => {
                if *queenside {
                    (*s_y, 2)
                } else {
                    (*s_y, 6)
                }
            },
            Action::Promotion { e_y, e_x, .. } => (*e_y, *e_x),
            Action::Enpassant { e_y, e_x, .. } => (*e_y, *e_x),
            Action::Tie => (0, 0),
        }
    }
}

/// How a move of the side to move from `st` to `en` is read from the board:
/// none if a coordinate is off the board or `st` does not hold a piece of
/// the side to move; else a promotion
/// if a kind was asked for, a capture if `en` is occupied, castling for a
/// king from file 4 to file 2 or 6 of its row, en passant for a pawn that
/// changes file, a plain jump otherwise.
pub open spec fn classify(
    s: State,
    st: (usize, usize),
    en: (usize, usize),
    promotion_piece: Option<PT>,
) -> Option<Action> {
    let (sy, sx) = st;
    let (ey, ex) = en;
    if sy >= 8 || sx >= 8 || ey >= 8 || ex >= 8 {
        None
    } else {
        match s.at(sy as int, sx as int) {
        None => None,
        Some(m) => if m.c != s.turn {
            None
        } else if promotion_piece is Some {
            Some(
                Action::Promotion {
                    s_y: sy,
                    s_x: sx,
                    e_y: ey,
                    e_x: ex,
                    to_piece: promotion_piece->0,
                },
            )
        } else if s.at(ey as int, ex as int) is Some {
            Some(Action::Capture { s_y: sy, s_x: sx, e_y: ey, e_x: ex })
        } else {
            match m.t {
                PT::King { .. } => if sy == ey && sx == 4 && ex == 2 {
                    Some(Action::Castling { s_y: sy, s_x: sx, queenside: true })
                } else if sy == ey && sx == 4 && ex == 6 {
                    Some(Action::Castling { s_y: sy, s_x: sx, queenside: false })
                } else {
                    Some(Action::Jump { s_y: sy, s_x: sx, e_y: ey, e_x: ex })
                },
                PT::Pawn { .. } => if ex != sx {
                    Some(Action::Enpassant { s_y: sy, s_x: sx, e_y: ey, e_x: ex })
                } else {
                    Some(Action::Jump { s_y: sy, s_x: sx, e_y: ey, e_x: ex })
                },
                _ => Some(Action::Jump { s_y: sy, s_x: sx, e_y: ey, e_x: ex }),
            }
        },
    }
    }
}

/// The notation of a move: glyph, space, origin, an `x` for a capture,
/// destination, with suffixes for en passant and promotion, and fixed tokens
/// for castling and for a draw claim.
pub open spec fn notation(s: State, a: Action) -> Seq<char> {
    let (sy, sx) = a.main_coords();
    let (ey, ex) = a.end_coords();
    let m = s.at(sy as int, sx as int)->0;
    let from_file = file_letter(sx as int);
    let from_rank = digit(rank_of(sy as int));
    let to_file = file_letter(ex as int);
    let to_rank = digit(rank_of(ey as int));
    match a {
        Action::Tie => seq!['½', '–', '½'],
        Action::Jump { .. } => seq![glyph(m), ' ', from_file, from_rank, to_file, to_rank],
        Action::Capture { .. } => seq![glyph(m), ' ', from_file, from_rank, 'x', to_file, to_rank],
        Action::Castling { queenside, .. } => if queenside {
            seq!['0', '-', '0', '-', '0']
        } else {
            seq!['0', '-', '0']
        },
        Action::Promotion { to_piece, .. } => {
            let promo = glyph(Piece { c: m.c, t: to_piece });
            let mark = if s.at(ey as int, ex as int) is Some {
                seq!['x']
            } else {
                Seq::empty()
            };
            seq![glyph(m), ' ', from_file, from_rank] + mark + seq![to_file, to_rank, promo]
        },
        Action::Enpassant { .. } => seq![
            glyph(m),
            ' ',
            from_file,
            from_rank,
            'x',
            to_file,
            to_rank,
            ' ',
            'e',
            '.',
            'p',
            '.',
        ],
    }
}

fn push_square(text: &mut String, y: usize, x: usize)
    requires
        y < 8,
        x < 8,
    ensures
        final(text)@ == old(text)@ + seq![file_letter(x as int), digit(rank_of(y as int))],
{
    push_char(text, to_column(x));
    let r = to_row(y);
    push_char(text, digit_char(r));
}

impl Action {
    /// Reads a move from two squares; see `classify`.
    pub fn from_context_and_coords(
        state: &State,
        start_coords: (usize, usize),
        end_coords: (usize, usize),
        promotion_piece: Option<PT>,
    ) -> (r: Option<Action>)
        ensures
            r == classify(*state, start_coords, end_coords, promotion_piece),
    {
        let (s_y, s_x) = start_coords;
        let (e_y, e_x) = end_coords;
        if s_y >= 8 || s_x >= 8 || e_y >= 8 || e_x >= 8 {
            return None;
        }
        match state.board[s_y][s_x] {
            None => None,
            Some(main_piece) => {
                if main_piece.c != state.turn {
                    return None;
                }
                if let Some(pt) = promotion_piece {
                    return Some(Action::Promotion { s_y, s_x, e_y, e_x, to_piece: pt });
                }
                if state.board[e_y][e_x].is_some() {
                    return Some(Action::Capture { s_y, s_x, e_y, e_x });
                }
                match main_piece.t {
                    PT::King { .. } => {
                        if s_y == e_y && s_x == 4 && e_x == 2 {
                            Some(Action::Castling { s_y, s_x, queenside: true })
                        } else if s_y == e_y && s_x == 4 && e_x == 6 {
                            Some(Action::Castling { s_y, s_x, queenside: false })
                        } else {
                            Some(Action::Jump { s_y, s_x, e_y, e_x })
                        }
                    },
                    PT::Pawn { .. } => {
                        if e_x != s_x {
                            Some(Action::Enpassant { s_y, s_x, e_y, e_x })
                        } else {
                            Some(Action::Jump { s_y, s_x, e_y, e_x })
                        }
                    },
                    _ => Some(Action::Jump { s_y, s_x, e_y, e_x }),
                }
            },
        }
    }

    /// The piece on the move's starting square.
    pub fn get_main_piece(&self, state: &State) -> (r: Option<Piece>)
        requires
            self.main_coords().0 < 8,
            self.main_coords().1 < 8,
        ensures
            r == state.at(self.main_coords().0 as int, self.main_coords().1 as int),
    {
        let coords = self.get_main_coords();
        state.board[coords.0][coords.1]
    }

    /// The move's notation in `state`, the position it is played from.
    pub fn to_string(&self, state: &State) -> (r: String)
        requires
            *self == Action::Tie || (self.coords_ok() && state.at(
                self.main_coords().0 as int,
                self.main_coords().1 as int,
            ) is Some),
        ensures
            r@ == notation(*state, *self),
    {
        let mut text = String::new();
        if *self == Action::Tie {
            push_char(&mut text, '½');
            push_char(&mut text, '–');
            push_char(&mut text, '½');
            assert(text@ =~= notation(*state, *self));
            return text;
        }
        let main_piece = self.get_main_piece(state).unwrap();
        let piece_char = main_piece.piece_to_char();
        match *self {
            Action::Jump { s_y, s_x, e_y, e_x } => {
                push_char(&mut text, piece_char);
                push_char(&mut text, ' ');
                push_square(&mut text, s_y, s_x);
                push_square(&mut text, e_y, e_x);
            },
            Action::Capture { s_y, s_x, e_y, e_x } => {
                push_char(&mut text, piece_char);
                push_char(&mut text, ' ');
                push_square(&mut text, s_y, s_x);
                push_char(&mut text, 'x');
                push_square(&mut text, e_y, e_x);
            },
            Action::Castling { queenside, .. } => {
                push_char(&mut text, '0');
                push_char(&mut text, '-');
                push_char(&mut text, '0');
                if queenside {
                    push_char(&mut text, '-');
                    push_char(&mut text, '0');
                }
            },
            Action::Promotion { s_y, s_x, e_y, e_x, to_piece } => {
                let promo_char = Piece { c: main_piece.c, t: to_piece }.piece_to_char();
                push_char(&mut text, piece_char);
                push_char(&mut text, ' ');
                push_square(&mut text, s_y, s_x);
                if state.board[e_y][e_x].is_some() {
                    push_char(&mut text, 'x');
                }
                push_square(&mut text, e_y, e_x);
                push_char(&mut text, promo_char);
            },
            Action::Enpassant { s_y, s_x, e_y, e_x } => {
                push_char(&mut text, piece_char);
                push_char(&mut text, ' ');
                push_square(&mut text, s_y, s_x);
                push_char(&mut text, 'x');
                push_square(&mut text, e_y, e_x);
                push_char(&mut text, ' ');
                push_char(&mut text, 'e');
                push_char(&mut text, '.');
                push_char(&mut text, 'p');
                push_char(&mut text, '.');
            },
            Action::Tie => {},
        }
        assert(text@ =~= notation(*state, *self));
        text
    }
}

} // verus!
