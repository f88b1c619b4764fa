//! A game: a board, whether each side is in check, and how the game stands.

use vstd::prelude::*;
use crate::check::check_for_checks;
use crate::fen::{fen_error, fen_position, fen_text, generate_fen, lemma_fen_round_trip, parse_fen, FenError};
use crate::legal::{get_available_moves_internal, listed, PieceMoves};
use crate::notation::{get_board_coords, square_of};
use crate::types::{Board, CastlingRights, Color, Coord, Piece, PieceKind, Position};

verus! {

/// How a game stands.
#[derive(Clone, Copy, Debug, PartialEq, Eq, Structural)]
pub enum GameStatus {
    InProgress,
    /// Black is checkmated.
    CheckmateWhiteWins,
    /// White is checkmated.
    CheckmateBlackWins,
    Stalemate,
    /// A hundred halfmoves have passed without a capture or a pawn move.
    DrawFiftyMove,
}

/// How a game with the position `p` stands: drawn once the halfmove clock
/// has reached a hundred; else, where White has no legal move, lost by
/// White if in check and stalemate if not; else the same for Black; else in
/// progress.
pub open spec fn status_of(p: Position) -> GameStatus {
    if p.halfmove >= 100 {
        GameStatus::DrawFiftyMove
    } else if !p.has_legal_move(Color::White) {
        if p.in_check(Color::White) {
            GameStatus::CheckmateBlackWins
        } else {
            GameStatus::Stalemate
        }
    } else if !p.has_legal_move(Color::Black) {
        if p.in_check(Color::Black) {
            GameStatus::CheckmateWhiteWins
        } else {
            GameStatus::Stalemate
        }
    } else {
        GameStatus::InProgress
    }
}

/// The position from which a game starts.
pub open spec fn initial_position() -> Position {
    Position {
        squares: Seq::new(8, |r: int| Seq::new(8, |f: int| initial_square(r, f))),
        active: Color::White,
        castling: CastlingRights {
            white_kingside: true,
            white_queenside: true,
            black_kingside: true,
            black_queenside: true,
        },
        en_passant: None,
        halfmove: 0,
        turn: 1,
        promotion: PieceKind::Queen,
    }
}

/// The kind of the piece that starts on `file` of a side's home rank.
pub open spec fn home_kind(file: int) -> PieceKind {
    if file == 0 || file == 7 {
        PieceKind::Rook
    } else if file == 1 || file == 6 {
        PieceKind::Knight
    } else if file == 2 || file == 5 {
        PieceKind::Bishop
    } else if file == 3 {
        PieceKind::Queen
    } else {
        PieceKind::King
    }
}

/// The content of `(r, f)` when a game starts.
pub open spec fn initial_square(r: int, f: int) -> Option<Piece> {
    if r == 0 {
        Some(Piece { kind: home_kind(f), color: Color::Black })
    } else if r == 1 {
        Some(Piece { kind: PieceKind::Pawn, color: Color::Black })
    } else if r == 6 {
        Some(Piece { kind: PieceKind::Pawn, color: Color::White })
    } else if r == 7 {
        Some(Piece { kind: home_kind(f), color: Color::White })
    } else {
        None
    }
}

/// A game in play.
#[derive(Clone, Debug, PartialEq, Eq)]
pub struct Game {
    /// The text of the board.
    pub fen: String,
    pub board: Board,
    /// Whether White is in check, then whether Black is.
    pub checks: [bool; 2],
    pub game_status: GameStatus,
}

/// The home rank of `color` when a game starts.
fn home_row(color: Color) -> (row: [Option<Piece>; 8])
    ensures
        forall|f: int|
            0 <= f < 8 ==> #[trigger] row@[f] == Some(Piece { kind: home_kind(f), color }),
{
    [
        Some(Piece { kind: PieceKind::Rook, color }),
        Some(Piece { kind: PieceKind::Knight, color }),
        Some(Piece { kind: PieceKind::Bishop, color }),
        Some(Piece { kind: PieceKind::Queen, color }),
        Some(Piece { kind: PieceKind::King, color }),
        Some(Piece { kind: PieceKind::Bishop, color }),
        Some(Piece { kind: PieceKind::Knight, color }),
        Some(Piece { kind: PieceKind::Rook, color }),
    ]
}

/// A row that holds `content` on each of its squares.
fn row_of(content: Option<Piece>) -> (row: [Option<Piece>; 8])
    ensures
        forall|f: int| 0 <= f < 8 ==> #[trigger] row@[f] == content,
{
    [content, content, content, content, content, content, content, content]
}

/// The board from which a game starts.
fn initial_board() -> (board: Board)
    ensures
        board@ == initial_position(),
        board.wf(),
{
    let empty = row_of(None);
    let black_pawns = row_of(Some(Piece { kind: PieceKind::Pawn, color: Color::Black }));
    let white_pawns = row_of(Some(Piece { kind: PieceKind::Pawn, color: Color::White }));
    let black_home = home_row(Color::Black);
    let white_home = home_row(Color::White);
    let board_state: [[Option<Piece>; 8]; 8] = [
        black_home,
        black_pawns,
        empty,
        empty,
        empty,
        empty,
        white_pawns,
        white_home,
    ];
    let board = Board {
        board_state,
        active_player: Color::White,
        castling_availability: CastlingRights {
            white_kingside: true,
            white_queenside: true,
            black_kingside: true,
            black_queenside: true,
        },
        en_passant_square: None,
        halfmove_counter: 0,
        turn_counter: 1,
        promotion_selection: PieceKind::Queen,
    };
    proof {
        let p = initial_position();
        assert(board_state@[0] == black_home && board_state@[1] == black_pawns && board_state@[2]
            == empty && board_state@[3] == empty && board_state@[4] == empty && board_state@[5]
            == empty && board_state@[6] == white_pawns && board_state@[7] == white_home);
        assert forall|r: int| 0 <= r < 8 implies #[trigger] board@.squares[r] =~= p.squares[r] by {
            assert forall|f: int| 0 <= f < 8 implies board@.squares[r][f] == initial_square(r, f) by {
                if r == 0 {
                    assert(black_home@[f] == initial_square(r, f));
                } else if r == 1 {
                    assert(black_pawns@[f] == initial_square(r, f));
                } else if r == 6 {
                    assert(white_pawns@[f] == initial_square(r, f));
                } else if r == 7 {
                    assert(white_home@[f] == initial_square(r, f));
                } else {
                    assert(empty@[f] == initial_square(r, f));
                }
            }
        }
        assert(board@.squares =~= p.squares);
    }
    board
}

/// How a game on `board` stands, given whether each side is in check.
fn status_for(board: &Board, checks: &[bool; 2]) -> (status: GameStatus)
    requires
        checks[0] == board@.in_check(Color::White),
        checks[1] == board@.in_check(Color::Black),
    ensures
        status == status_of(board@),
{
    if board.halfmove_counter >= 100 {
        return GameStatus::DrawFiftyMove;
    }
    if !has_moves(board, Color::White) {
        if checks[0] {
            return GameStatus::CheckmateBlackWins;
        }
        return GameStatus::Stalemate;
    }
    if !has_moves(board, Color::Black) {
        if checks[1] {
            return GameStatus::CheckmateWhiteWins;
        }
        return GameStatus::Stalemate;
    }
    GameStatus::InProgress
}

/// Whether `color` has a legal move on `board`.
fn has_moves(board: &Board, color: Color) -> (r: bool)
    ensures
        r == board@.has_legal_move(color),
{
    let moves = get_available_moves_internal(*board, color, false);
    proof {
        if moves@.len() > 0 {
            let first = moves@[0];
            assert(first.targets@.contains(first.targets@[0]));
            assert(listed(moves@, first.source, first.targets@[0]));
            assert(board@.legal_move(color, first.source, first.targets@[0]));
        } else {
            assert forall|from: Coord, to: Coord| !board@.legal_move(color, from, to) by {
                assert(!listed(moves@, from, to));
            }
        }
    }
    moves.len() > 0
}

/// Whether `moves` holds the move from `from` to `to`.
fn holds_move(moves: &Vec<PieceMoves>, from: Coord, to: Coord) -> (r: bool)
    ensures
        r == listed(moves@, from, to),
{
    let mut i: usize = 0;
    while i < moves.len()
        invariant
            i <= moves.len(),
            forall|k: int|
                0 <= k < i ==> !((#[trigger] moves@[k]).source == from && moves@[k].targets@.contains(
                    to,
                )),
        decreases moves.len() - i,
    {
        let entry = &moves[i];
        if entry.source.rank == from.rank && entry.source.file == from.file {
            let mut j: usize = 0;
            while j < entry.targets.len()
                invariant
                    j <= entry.targets.len(),
                    entry == moves@[i as int],
                    i < moves.len(),
                    entry.source == from,
                    forall|k: int| 0 <= k < j ==> entry.targets@[k] != to,
                decreases entry.targets.len() - j,
            {
                let t = entry.targets[j];
                if t.rank == to.rank && t.file == to.file {
                    assert(entry.targets@.contains(to));
                    return true;
                }
                j += 1;
            }
        }
        i += 1;
    }
    false
}

impl Game {
    /// The board is well formed, and the text, the check flags and the
    /// status are those of the board.
    pub open spec fn wf(self) -> bool {
        &&& self.board.wf()
        &&& self.fen@ == fen_text(self.board@)
        &&& self.checks[0] == self.board@.in_check(Color::White)
        &&& self.checks[1] == self.board@.in_check(Color::Black)
        &&& self.game_status == status_of(self.board@)
    }

    /// A game on the board that `fen` writes: its status is that of the
    /// board, which may already be final.
    pub fn new_from_fen(fen: String) -> (r: Result<Game, FenError>)
        ensures
            match r {
                Ok(game) => {
                    &&& fen_error(fen@) is None
                    &&& game.board@ == fen_position(fen@)
                    &&& game.fen@ == fen@
                    &&& game.wf()
                },
                Err(e) => fen_error(fen@) == Some(e),
            },
    {
        let board = match parse_fen(fen.as_str()) {
            Ok(board) => board,
            Err(e) => {
                return Err(e);
            },
        };
        proof {
            lemma_fen_round_trip(fen@);
        }
        let checks = check_for_checks(&board);
        let game_status = status_for(&board, &checks);
        Ok(Game { fen, board, checks, game_status })
    }

    /// A game at the starting position: in progress, with neither side in
    /// check.
    pub fn new() -> (game: Game)
        ensures
            game.board@ == initial_position(),
            game.game_status == GameStatus::InProgress,
            game.checks == [false, false],
            game.wf(),
    {
        proof {
            lemma_initial_position_in_progress();
        }
        let board = initial_board();
        let checks = check_for_checks(&board);
        let game_status = status_for(&board, &checks);
        let fen = generate_fen(&board);
        Game { fen, board, checks, game_status }
    }

    /// Recomputes the check flags and the status from the board.
    pub fn update_game_status(&mut self)
        ensures
            final(self).board == old(self).board,
            final(self).fen == old(self).fen,
            final(self).checks[0] == old(self).board@.in_check(Color::White),
            final(self).checks[1] == old(self).board@.in_check(Color::Black),
            final(self).game_status == status_of(old(self).board@),
    {
        self.checks = check_for_checks(&self.board);
        self.game_status = status_for(&self.board, &self.checks);
    }

    /// Makes the move from the square named `source` to the square named
    /// `target` if it is a legal move of the side to move, and says whether
    /// it did. A move that is not made leaves the game as it was.
    pub fn make_move(&mut self, source: String, target: String) -> (made: bool)
        requires
            old(self).board.wf(),
            old(self).board.halfmove_counter < u32::MAX,
            old(self).board.turn_counter < u64::MAX,
        ensures
            made <==> {
                &&& square_of(source@) matches Ok(from)
                &&& square_of(target@) matches Ok(to)
                &&& old(self).board@.legal_move(old(self).board.active_player, from, to)
            },
            made ==> final(self).board@ == old(self).board@.after_move(
                square_of(source@)->Ok_0,
                square_of(target@)->Ok_0,
            ) && final(self).wf(),
            !made ==> *final(self) == *old(self),
    {
        let from = match get_board_coords(source) {
            Ok(c) => c,
            Err(_) => {
                return false;
            },
        };
        let to = match get_board_coords(target) {
            Ok(c) => c,
            Err(_) => {
                return false;
            },
        };
        let moves = get_available_moves_internal(self.board, self.board.active_player, false);
        if !holds_move(&moves, from, to) {
            return false;
        }
        self.board.move_piece(from, to);
        self.checks = check_for_checks(&self.board);
        self.game_status = status_for(&self.board, &self.checks);
        self.fen = generate_fen(&self.board);
        true
    }
}

/// A position whose halfmove clock has reached a hundred is a draw,
/// whatever else holds of it.
pub proof fn lemma_fifty_move_draw(p: Position)
    requires
        p.halfmove >= 100,
    ensures
        status_of(p) == GameStatus::DrawFiftyMove,
{
}

/// At the start neither side is in check, and a rook's pawn of either side
/// may step forward: nothing of the other side stands near enough to the
/// king to reach it.
pub proof fn lemma_first_step_is_legal(color: Color)
    ensures
        !initial_position().in_check(color),
        initial_position().legal_move(
            color,
            Coord { rank: color.pawn_rank() as u8, file: 0 },
            Coord { rank: (color.pawn_rank() + color.forward()) as u8, file: 0 },
        ),
{
    let p = initial_position();
    let from = Coord { rank: color.pawn_rank() as u8, file: 0 };
    let to = Coord { rank: (color.pawn_rank() + color.forward()) as u8, file: 0 };
    let q = p.after_move(from, to);
    assert(p.at(from) == Some(Piece { kind: PieceKind::Pawn, color }));
    assert(p.pseudo_legal(from, to));
    assert forall|a: Coord, b: Coord| !q.threat(color, a, b) by {
        if a.wf() && b.wf() {
            let piece = Piece { kind: PieceKind::Pawn, color };
            assert(q.at(a) == p.square_after(piece, from, to, a.rank as int, a.file as int));
            assert(q.at(b) == p.square_after(piece, from, to, b.rank as int, b.file as int));
        }
    }
    assert forall|a: Coord, b: Coord| !p.threat(color, a, b) by {}
}

/// A game starts in progress, with neither side in check.
pub proof fn lemma_initial_position_in_progress()
    ensures
        status_of(initial_position()) == GameStatus::InProgress,
        !initial_position().in_check(Color::White),
        !initial_position().in_check(Color::Black),
{
    lemma_first_step_is_legal(Color::White);
    lemma_first_step_is_legal(Color::Black);
}

impl Default for Game {
    /// A game at the starting position.
    fn default() -> (game: Game)
        ensures
            game.board@ == initial_position(),
            game.game_status == GameStatus::InProgress,
            game.wf(),
    {
        Game::new()
    }
}

} // verus!
