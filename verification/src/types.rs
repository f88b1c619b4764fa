//! The data model: colours, pieces, coordinates and the board.

use vstd::prelude::*;

verus! {

/// The two sides.
#[derive(Clone, Copy, Debug, PartialEq, Eq, Structural)]
pub enum Color {
    White,
    Black,
}

impl Color {
    /// The other side.
    pub open spec fn other(self) -> Color {
        match self {
            Color::White => Color::Black,
            Color::Black => Color::White,
        }
    }

    /// The other side.
    pub fn opposite(self) -> (r: Color)
        ensures
            r == self.other(),
    {
        match self {
            Color::White => Color::Black,
            Color::Black => Color::White,
        }
    }

    /// The rank step of this side's pawns: White moves towards rank 0.
    pub open spec fn forward(self) -> int {
        match self {
            Color::White => -1,
            Color::Black => 1,
        }
    }

    /// The rank on which this side's pawns start.
    pub open spec fn pawn_rank(self) -> int {
        match self {
            Color::White => 6,
            Color::Black => 1,
        }
    }

    /// The rank on which this side's king and rooks start.
    pub open spec fn home_rank(self) -> int {
        match self {
            Color::White => 7,
            Color::Black => 0,
        }
    }

    /// The rank on which this side's pawns promote.
    pub open spec fn last_rank(self) -> int {
        match self {
            Color::White => 0,
            Color::Black => 7,
        }
    }
}

/// The six kinds of piece.
#[derive(Clone, Copy, Debug, PartialEq, Eq, Structural)]
pub enum PieceKind {
    Pawn,
    Knight,
    Bishop,
    Rook,
    Queen,
    King,
}

impl PieceKind {
    /// Whether a pawn may promote to this kind.
    pub open spec fn promotable(self) -> bool {
        self == PieceKind::Bishop || self == PieceKind::Knight || self == PieceKind::Rook
            || self == PieceKind::Queen
    }
}

/// A piece: its kind and its side.
#[derive(Clone, Copy, Debug, PartialEq, Eq, Structural)]
pub struct Piece {
    pub kind: PieceKind,
    pub color: Color,
}

/// A square of the board, rank first.
#[derive(Clone, Copy, Debug, PartialEq, Eq, Structural)]
pub struct Coord {
    pub rank: u8,
    pub file: u8,
}

/// Whether `(rank, file)` lies on the board.
pub open spec fn on_board(rank: int, file: int) -> bool {
    0 <= rank < 8 && 0 <= file < 8
}

impl Coord {
    /// Both components lie in `0..8`.
    pub open spec fn wf(self) -> bool {
        self.rank < 8 && self.file < 8
    }

    /// Whether this coordinate is the square `(rank, file)`.
    pub open spec fn is(self, rank: int, file: int) -> bool {
        self.rank == rank && self.file == file
    }
}

/// The four castling rights, each independent of the others.
#[derive(Clone, Copy, Debug, PartialEq, Eq, Structural)]
pub struct CastlingRights {
    pub white_kingside: bool,
    pub white_queenside: bool,
    pub black_kingside: bool,
    pub black_queenside: bool,
}

impl CastlingRights {
    /// The kingside right of `color`.
    pub open spec fn kingside(self, color: Color) -> bool {
        match color {
            Color::White => self.white_kingside,
            Color::Black => self.black_kingside,
        }
    }

    /// The queenside right of `color`.
    pub open spec fn queenside(self, color: Color) -> bool {
        match color {
            Color::White => self.white_queenside,
            Color::Black => self.black_queenside,
        }
    }

    /// Every right held in `self` is also held in `before`.
    pub open spec fn within(self, before: CastlingRights) -> bool {
        &&& self.white_kingside ==> before.white_kingside
        &&& self.white_queenside ==> before.white_queenside
        &&& self.black_kingside ==> before.black_kingside
        &&& self.black_queenside ==> before.black_queenside
    }
}

/// A board: the grid and the state that move generation and execution read
/// and update.
#[derive(Clone, Copy, Debug, PartialEq, Eq)]
pub struct Board {
    /// The grid, row by row from rank 0; `None` is an empty square.
    pub board_state: [[Option<Piece>; 8]; 8],
    /// The side to move.
    pub active_player: Color,
    pub castling_availability: CastlingRights,
    /// The square that a pawn skipped on the move just made, if it advanced
    /// two squares.
    pub en_passant_square: Option<Coord>,
    /// Moves since the last capture or pawn move.
    pub halfmove_counter: u32,
    /// Incremented after each move of Black.
    pub turn_counter: u64,
    /// The kind that a pawn becomes on its last rank.
    pub promotion_selection: PieceKind,
}

/// The mathematical model of a board, over which the rules are stated.
pub struct Position {
    /// Eight rows of eight squares, from rank 0.
    pub squares: Seq<Seq<Option<Piece>>>,
    pub active: Color,
    pub castling: CastlingRights,
    pub en_passant: Option<Coord>,
    pub halfmove: nat,
    pub turn: nat,
    pub promotion: PieceKind,
}

impl Position {
    /// The grid is eight by eight, the en-passant target, if any, lies on
    /// the board, and the promotion choice is one a pawn may promote to.
    pub open spec fn wf(self) -> bool {
        &&& self.squares.len() == 8
        &&& forall|r: int| 0 <= r < 8 ==> (#[trigger] self.squares[r]).len() == 8
        &&& self.en_passant matches Some(t) ==> t.wf()
        &&& self.promotion.promotable()
    }

    /// The content of the square `(rank, file)`.
    pub open spec fn sq(self, rank: int, file: int) -> Option<Piece> {
        self.squares[rank][file]
    }

    /// The content of the square at `c`.
    pub open spec fn at(self, c: Coord) -> Option<Piece> {
        self.sq(c.rank as int, c.file as int)
    }

    /// Whether `(rank, file)` holds a piece of `color`.
    pub open spec fn holds_color(self, rank: int, file: int, color: Color) -> bool {
        self.sq(rank, file) matches Some(p) && p.color == color
    }

    /// Whether `(rank, file)` is empty.
    pub open spec fn empty(self, rank: int, file: int) -> bool {
        self.sq(rank, file) is None
    }
}

impl View for Board {
    type V = Position;

    open spec fn view(&self) -> Position {
        Position {
            squares: Seq::new(8, |r: int| self.board_state[r]@),
            active: self.active_player,
            castling: self.castling_availability,
            en_passant: self.en_passant_square,
            halfmove: self.halfmove_counter as nat,
            turn: self.turn_counter as nat,
            promotion: self.promotion_selection,
        }
    }
}

impl Board {
    /// The en-passant target, if any, lies on the board, and the promotion
    /// choice is one a pawn may promote to.
    pub open spec fn wf(self) -> bool {
        &&& self.en_passant_square matches Some(t) ==> t.wf()
        &&& self.promotion_selection.promotable()
    }

    /// The model of a well-formed board is well formed: the grid of a board
    /// is always eight by eight.
    pub proof fn lemma_view_wf(self)
        requires
            self.wf(),
        ensures
            self@.wf(),
    {
        assert forall|r: int| 0 <= r < 8 implies (#[trigger] self@.squares[r]).len() == 8 by {}
    }

    /// Puts `piece` on the square at `coords`.
    pub fn set_piece(&mut self, coords: &Coord, piece: Option<Piece>)
        requires
            coords.wf(),
        ensures
            final(self)@.at(*coords) == piece,
            forall|r: int, f: int|
                on_board(r, f) && !coords.is(r, f) ==> final(self)@.sq(r, f) == old(self)@.sq(r, f),
            final(self).active_player == old(self).active_player,
            final(self).castling_availability == old(self).castling_availability,
            final(self).en_passant_square == old(self).en_passant_square,
            final(self).halfmove_counter == old(self).halfmove_counter,
            final(self).turn_counter == old(self).turn_counter,
            final(self).promotion_selection == old(self).promotion_selection,
    {
        let mut row = self.board_state[coords.rank as usize];
        row[coords.file as usize] = piece;
        self.board_state[coords.rank as usize] = row;
    }
}

/// The content of the square at `coords`.
pub fn get_piece(board: &Board, coords: &Coord) -> (p: Option<Piece>)
    requires
        coords.wf(),
    ensures
        p == board@.at(*coords),
{
    board.board_state[coords.rank as usize][coords.file as usize]
}

/// Whether `piece` belongs to the opponent of `active_player`.
pub fn is_enemy_piece(active_player: Color, piece: Option<Piece>) -> (r: bool)
    ensures
        r == (piece matches Some(p) && p.color != active_player),
{
    match piece {
        Some(p) => p.color != active_player,
        None => false,
    }
}

/// Whether `piece` belongs to `active_player`.
pub fn is_friendly_piece(active_player: Color, piece: Option<Piece>) -> (r: bool)
    ensures
        r == (piece matches Some(p) && p.color == active_player),
{
    match piece {
        Some(p) => p.color == active_player,
        None => false,
    }
}

} // verus!
