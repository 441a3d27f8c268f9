//! Positions: pieces, the board, the side to move, the move counter, the
//! repetition table and the fingerprint that keys it.
use std::collections::HashMap;
use vstd::prelude::*;

verus! {

broadcast use vstd::std_specs::hash::group_hash_axioms;

/// The colour of a piece; `White` moves first.
#[derive(Debug, PartialEq, Eq, Hash, Clone, Copy, Structural)]
pub enum PC {
    Black,
    White,
}

impl PC {
    /// The other colour.
    pub open spec fn other(self) -> PC {
        match self {
            PC::Black => PC::White,
            PC::White => PC::Black,
        }
    }

    pub fn opponent(&self) -> (r: PC)
        ensures
            r == self.other(),
    {
        match self {
            PC::Black => PC::White,
            PC::White => PC::Black,
        }
    }
}

/// The kind of a piece, with the history that the rules need: the move
/// index of a pawn's last two-square advance, and whether a rook or a king
/// has moved (a rook made by promotion counts as moved).
#[derive(Debug, PartialEq, Eq, Clone, Copy, Structural)]
pub enum PT {
    Pawn { last_jump: Option<usize> },
    Knight,
    Bishop,
    Rook { has_moved: bool },
    Queen,
    King { has_moved: bool },
}

#[derive(Debug, PartialEq, Eq, Clone, Copy, Structural)]
pub struct Piece {
    pub c: PC,
    pub t: PT,
}

/// The character that shows a piece.
pub open spec fn glyph(p: Piece) -> char {
    match (p.c, p.t) {
        (PC::Black, PT::Pawn { .. }) => '♟',
        (PC::Black, PT::Knight) => '♞',
        (PC::Black, PT::Bishop) => '♝',
        (PC::Black, PT::Rook { .. }) => '♜',
        (PC::Black, PT::Queen) => '♛',
        (PC::Black, PT::King { .. }) => '♚',
        (PC::White, PT::Pawn { .. }) => '♙',
        (PC::White, PT::Knight) => '♘',
        (PC::White, PT::Bishop) => '♗',
        (PC::White, PT::Rook { .. }) => '♖',
        (PC::White, PT::Queen) => '♕',
        (PC::White, PT::King { .. }) => '♔',
    }
}

impl Piece {
    pub fn piece_to_char(&self) -> (r: char)
        ensures
            r == glyph(*self),
    {
        match (self.c, self.t) {
            (PC::Black, PT::Pawn { .. }) => '♟',
            (PC::Black, PT::Knight) => '♞',
            (PC::Black, PT::Bishop) => '♝',
            (PC::Black, PT::Rook { .. }) => '♜',
            (PC::Black, PT::Queen) => '♛',
            (PC::Black, PT::King { .. }) => '♚',
            (PC::White, PT::Pawn { .. }) => '♙',
            (PC::White, PT::Knight) => '♘',
            (PC::White, PT::Bishop) => '♗',
            (PC::White, PT::Rook { .. }) => '♖',
            (PC::White, PT::Queen) => '♕',
            (PC::White, PT::King { .. }) => '♔',
        }
    }
}

/// An 8x8 board, row 0 being the back rank of `Black`.
pub type Board = [[Option<Piece>; 8]; 8];

/// A view of a board as a function of (row, column), empty off the board.
pub type Grid = spec_fn(int, int) -> Option<Piece>;

pub open spec fn on_board(y: int, x: int) -> bool {
    0 <= y < 8 && 0 <= x < 8
}

pub open spec fn grid_of(b: Board) -> Grid {
    |y: int, x: int|
        if on_board(y, x) {
            b[y][x]
        } else {
            None
        }
}

#[derive(Clone, Debug, PartialEq, Eq)]
pub struct State {
    pub board: Board,
    /// How often each fingerprint has occurred in the game so far.
    pub hash_to_occurences: HashMap<u64, i32>,
    pub turn: PC,
    pub moves: usize,
    pub drawn: bool,
}

pub const HASH_BASE: u64 = 1156366624;

pub const HASH_MOD: u64 = 999999999999989;

pub open spec fn turn_code(c: PC) -> u64 {
    match c {
        PC::Black => 17,
        PC::White => 18,
    }
}

/// The fingerprint class of a kind; a pawn that may be taken en passant now
/// (its two-square advance was the previous move) has a class of its own.
pub open spec fn kind_code(t: PT, moves: usize) -> u64 {
    match t {
        PT::Pawn { last_jump } => if moves > 0 && last_jump == Some((moves - 1) as usize) {
            0
        } else {
            1
        },
        PT::Knight => 2,
        PT::Bishop => 3,
        PT::Rook { has_moved } => if has_moved {
            5
        } else {
            4
        },
        PT::Queen => 6,
        PT::King { has_moved } => if has_moved {
            8
        } else {
            7
        },
    }
}

pub open spec fn square_code(p: Option<Piece>, moves: usize) -> u64 {
    match p {
        None => 1,
        Some(p) => (2 + 2 * kind_code(p.t, moves) + match p.c {
            PC::Black => 0u64,
            PC::White => 1u64,
        }) as u64,
    }
}

/// The fingerprint after the first `k` squares in row-major order.
pub open spec fn hash_prefix(b: Board, turn: PC, moves: usize, k: nat) -> u64
    decreases k,
{
    if k == 0 {
        ((HASH_BASE + turn_code(turn)) as int % (HASH_MOD as int)) as u64
    } else {
        let j = k - 1;
        ((hash_prefix(b, turn, moves, j as nat) + square_weight(j) * square_code(
            b[j / 8][j % 8],
            moves,
        )) % (HASH_MOD as int)) as u64
    }
}

/// The fingerprint of a board, side to move and move counter.
pub open spec fn hash_of(b: Board, turn: PC, moves: usize) -> u64 {
    hash_prefix(b, turn, moves, 64)
}

/// The weight that the fingerprint gives to square `k` (row-major, `k < 64`).
pub open spec fn square_weight(k: int) -> u64 {
    if k == 0 {
        37
    } else if k == 1 {
        1369
    } else if k == 2 {
        50653
    } else if k == 3 {
        1874161
    } else if k == 4 {
        69343957
    } else if k == 5 {
        2565726409
    } else if k == 6 {
        94931877133
    } else if k == 7 {
        3512479453921
    } else if k == 8 {
        129961739795077
    } else if k == 9 {
        808584372417893
    } else if k == 10 {
        917621779462360
    } else if k == 11 {
        952005840107683
    } else if k == 12 {
        224216083984656
    } else if k == 13 {
        295995107432360
    } else if k == 14 {
        951818974997430
    } else if k == 15 {
        217302074905295
    } else if k == 16 {
        40176771496003
    } else if k == 17 {
        486540545352122
    } else if k == 18 {
        2000178028712
    } else if k == 19 {
        74006587062344
    } else if k == 20 {
        738243721306750
    } else if k == 21 {
        315017688350047
    } else if k == 22 {
        655654468951860
    } else if k == 23 {
        259215351219084
    } else if k == 24 {
        590967995106207
    } else if k == 25 {
        865815818929890
    } else if k == 26 {
        35185300406282
    } else if k == 27 {
        301856115032445
    } else if k == 28 {
        168676256200586
    } else if k == 29 {
        241021479421748
    } else if k == 30 {
        917794738604764
    } else if k == 31 {
        958405328376631
    } else if k == 32 {
        460997149935732
    } else if k == 33 {
        56894547622271
    } else if k == 34 {
        105098262024049
    } else if k == 35 {
        888635694889846
    } else if k == 36 {
        879520710924654
    } else if k == 37 {
        542266304212550
    } else if k == 38 {
        63853255864570
    } else if k == 39 {
        362570466989112
    } else if k == 40 {
        415107278597287
    } else if k == 41 {
        358969308099784
    } else if k == 42 {
        281864399692151
    } else if k == 43 {
        428982788609697
    } else if k == 44 {
        872363178558954
    } else if k == 45 {
        277437606681650
    } else if k == 46 {
        265191447221160
    } else if k == 47 {
        812083547183019
    } else if k == 48 {
        47091245772033
    } else if k == 49 {
        742376093565232
    } else if k == 50 {
        467915461913881
    } else if k == 51 {
        312872090813784
    } else if k == 52 {
        576267360110129
    } else if k == 53 {
        321892324075004
    } else if k == 54 {
        910015990775269
    } else if k == 55 {
        670591658685316
    } else if k == 56 {
        811891371356956
    } else if k == 57 {
        39980740207702
    } else if k == 58 {
        479287387684985
    } else if k == 59 {
        733633344344632
    } else if k == 60 {
        144433740751681
    } else if k == 61 {
        344048407812252
    } else if k == 62 {
        729791089053456
    } else {
        2270294978169
    }
}

fn square_weight_of(k: usize) -> (r: u64)
    requires
        k < 64,
    ensures
        r == square_weight(k as int),
{
    match k {
        0 => 37,
        1 => 1369,
        2 => 50653,
        3 => 1874161,
        4 => 69343957,
        5 => 2565726409,
        6 => 94931877133,
        7 => 3512479453921,
        8 => 129961739795077,
        9 => 808584372417893,
        10 => 917621779462360,
        11 => 952005840107683,
        12 => 224216083984656,
        13 => 295995107432360,
        14 => 951818974997430,
        15 => 217302074905295,
        16 => 40176771496003,
        17 => 486540545352122,
        18 => 2000178028712,
        19 => 74006587062344,
        20 => 738243721306750,
        21 => 315017688350047,
        22 => 655654468951860,
        23 => 259215351219084,
        24 => 590967995106207,
        25 => 865815818929890,
        26 => 35185300406282,
        27 => 301856115032445,
        28 => 168676256200586,
        29 => 241021479421748,
        30 => 917794738604764,
        31 => 958405328376631,
        32 => 460997149935732,
        33 => 56894547622271,
        34 => 105098262024049,
        35 => 888635694889846,
        36 => 879520710924654,
        37 => 542266304212550,
        38 => 63853255864570,
        39 => 362570466989112,
        40 => 415107278597287,
        41 => 358969308099784,
        42 => 281864399692151,
        43 => 428982788609697,
        44 => 872363178558954,
        45 => 277437606681650,
        46 => 265191447221160,
        47 => 812083547183019,
        48 => 47091245772033,
        49 => 742376093565232,
        50 => 467915461913881,
        51 => 312872090813784,
        52 => 576267360110129,
        53 => 321892324075004,
        54 => 910015990775269,
        55 => 670591658685316,
        56 => 811891371356956,
        57 => 39980740207702,
        58 => 479287387684985,
        59 => 733633344344632,
        60 => 144433740751681,
        61 => 344048407812252,
        62 => 729791089053456,
        _ => 2270294978169,
    }
}

fn square_code_of(p: Option<Piece>, moves: usize) -> (r: u64)
    ensures
        r == square_code(p, moves),
        r <= 19,
{
    match p {
        None => 1,
        Some(p) => {
            let kind: u64 = match p.t {
                PT::Pawn { last_jump } => {
                    if moves > 0 && last_jump == Some(moves - 1) {
                        0
                    } else {
                        1
                    }
                },
                PT::Knight => 2,
                PT::Bishop => 3,
                PT::Rook { has_moved } => if has_moved {
                    5
                } else {
                    4
                },
                PT::Queen => 6,
                PT::King { has_moved } => if has_moved {
                    8
                } else {
                    7
                },
            };
            let colour: u64 = match p.c {
                PC::Black => 0,
                PC::White => 1,
            };
            2 + 2 * kind + colour
        },
    }
}

impl State {
    pub open spec fn grid(self) -> Grid {
        grid_of(self.board)
    }

    pub open spec fn at(self, y: int, x: int) -> Option<Piece> {
        self.board[y][x]
    }

    pub open spec fn table(self) -> Map<u64, i32> {
        self.hash_to_occurences@
    }

    pub open spec fn spec_hash(self) -> u64 {
        hash_of(self.board, self.turn, self.moves)
    }

    /// How often fingerprint `h` has occurred, 0 if never.
    pub open spec fn count_of(self, h: u64) -> int {
        if self.table().contains_key(h) {
            self.table()[h] as int
        } else {
            0
        }
    }

    /// How often the current position has occurred, 0 if never.
    pub open spec fn occurrences(self) -> int {
        self.count_of(self.spec_hash())
    }

    /// Every count in the repetition table is positive.
    pub open spec fn counts_ok(self) -> bool {
        forall|h: u64| #[trigger] self.table().contains_key(h) ==> self.table()[h] >= 1
    }

    /// `n` more moves fit in the move counter and in every count.
    pub open spec fn room(self, n: int) -> bool {
        &&& self.moves + n <= usize::MAX
        &&& n <= i32::MAX
        &&& forall|h: u64| #[trigger] self.table().contains_key(h) ==> self.table()[h] + n <= i32::MAX
    }

    /// The two positions agree square by square, in the side to move, the
    /// move counter, the drawn flag and the repetition table.
    pub open spec fn same_as(self, o: State) -> bool {
        &&& self.board == o.board
        &&& self.turn == o.turn
        &&& self.moves == o.moves
        &&& self.drawn == o.drawn
        &&& self.table() == o.table()
    }

    /// The fingerprint of the position: a function of the board, the side to
    /// move and which pawns may be taken en passant now.
    pub fn hash(&self) -> (r: u64)
        ensures
            r == self.spec_hash(),
    {
        let mut v: u64 = match self.turn {
            PC::Black => HASH_BASE + 17,
            PC::White => HASH_BASE + 18,
        };
        v = v % HASH_MOD;
        let mut k: usize = 0;
        while k < 64
            invariant
                k <= 64,
                v == hash_prefix(self.board, self.turn, self.moves, k as nat),
                v < HASH_MOD,
            decreases 64 - k,
        {
            let code = square_code_of(self.board[k / 8][k % 8], self.moves);
            let w = square_weight_of(k);
            assert(w < HASH_MOD);
            assert(w * code <= 999999999999989 * 19) by (nonlinear_arith)
                requires
                    w < 999999999999989,
                    code <= 19,
            ;
            v = (v + w * code) % HASH_MOD;
            k = k + 1;
        }
        v
    }
}


/// The kind on file `x` of a back rank at the start of a game.
pub open spec fn back_kind(x: int) -> PT {
    if x == 0 || x == 7 {
        PT::Rook { has_moved: false }
    } else if x == 1 || x == 6 {
        PT::Knight
    } else if x == 2 || x == 5 {
        PT::Bishop
    } else if x == 3 {
        PT::Queen
    } else {
        PT::King { has_moved: false }
    }
}

/// The standard arrangement: `Black` on rows 0 and 1, `White` on rows 6 and 7.
pub open spec fn start_square(y: int, x: int) -> Option<Piece> {
    if y == 0 {
        Some(Piece { c: PC::Black, t: back_kind(x) })
    } else if y == 1 {
        Some(Piece { c: PC::Black, t: PT::Pawn { last_jump: None } })
    } else if y == 6 {
        Some(Piece { c: PC::White, t: PT::Pawn { last_jump: None } })
    } else if y == 7 {
        Some(Piece { c: PC::White, t: back_kind(x) })
    } else {
        None
    }
}

fn back_row(c: PC) -> (r: [Option<Piece>; 8])
    ensures
        forall|x: int| 0 <= x < 8 ==> r[x] == Some(Piece { c, t: back_kind(x) }),
{
    let rook = Some(Piece { c, t: PT::Rook { has_moved: false } });
    let knight = Some(Piece { c, t: PT::Knight });
    let bishop = Some(Piece { c, t: PT::Bishop });
    let queen = Some(Piece { c, t: PT::Queen });
    let king = Some(Piece { c, t: PT::King { has_moved: false } });
    [rook, knight, bishop, queen, king, bishop, knight, rook]
}

fn pawn_row(c: PC) -> (r: [Option<Piece>; 8])
    ensures
        forall|x: int| 0 <= x < 8 ==> r[x] == Some(Piece { c, t: PT::Pawn { last_jump: None } }),
{
    let p = Some(Piece { c, t: PT::Pawn { last_jump: None } });
    [p, p, p, p, p, p, p, p]
}

fn empty_row() -> (r: [Option<Piece>; 8])
    ensures
        forall|x: int| 0 <= x < 8 ==> r[x] is None,
{
    [None, None, None, None, None, None, None, None]
}

/// The text of the first `k` squares: each square's glyph (a space when it is
/// empty) and a space, with a line break after each row.
pub open spec fn board_text(b: Board, k: nat) -> Seq<char>
    decreases k,
{
    if k == 0 {
        Seq::empty()
    } else {
        let j = k - 1;
        let cell = match b[j / 8][j % 8] {
            None => ' ',
            Some(p) => glyph(p),
        };
        let t = board_text(b, j as nat) + seq![cell, ' '];
        if j % 8 == 7 {
            t.push('\n')
        } else {
            t
        }
    }
}

/// Relies on `String::push`: appends one character.
#[verifier::external_body]
pub(crate) fn push_char(s: &mut String, c: char)
    ensures
        final(s)@ == old(s)@.push(c),
{
    s.push(c)
}

impl State {
    /// The starting position, seen once.
    pub fn new() -> (r: State)
        ensures
            forall|y: int, x: int| on_board(y, x) ==> r.at(y, x) == start_square(y, x),
            r.turn == PC::White,
            r.moves == 0,
            !r.drawn,
            r.table() == map![r.spec_hash() => 1i32],
    {
        let board = [
            back_row(PC::Black),
            pawn_row(PC::Black),
            empty_row(),
            empty_row(),
            empty_row(),
            empty_row(),
            pawn_row(PC::White),
            back_row(PC::White),
        ];
        let mut state = State {
            board,
            hash_to_occurences: HashMap::new(),
            turn: PC::White,
            moves: 0,
            drawn: false,
        };
        let h = state.hash();
        state.hash_to_occurences.insert(h, 1);
        assert(state.table() =~= map![state.spec_hash() => 1i32]);
        state
    }

    /// The board as text, row 0 first.
    pub fn board_to_string(&self) -> (r: String)
        ensures
            r@ == board_text(self.board, 64),
    {
        let mut text = String::new();
        let mut k: usize = 0;
        while k < 64
            invariant
                k <= 64,
                text@ == board_text(self.board, k as nat),
            decreases 64 - k,
        {
            let letter = match self.board[k / 8][k % 8] {
                None => ' ',
                Some(p) => p.piece_to_char(),
            };
            push_char(&mut text, letter);
            push_char(&mut text, ' ');
            if k % 8 == 7 {
                push_char(&mut text, '\n');
            }
            k = k + 1;
        }
        text
    }
}


impl Default for State {
    fn default() -> (r: State)
        ensures
            forall|y: int, x: int| on_board(y, x) ==> r.at(y, x) == start_square(y, x),
            r.turn == PC::White,
            r.moves == 0,
            !r.drawn,
            r.table() == map![r.spec_hash() => 1i32],
    {
        State::new()
    }
}

} // verus!
