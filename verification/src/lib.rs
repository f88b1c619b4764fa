//! A chess rules engine: move generation, check detection, legality
//! filtering, move execution and game-status classification, with every
//! rule stated as a contract and proved.
//!
//! Coordinates are `(rank, file)` pairs in `0..8`; rank 0 is the row of the
//! eighth rank (where Black's pieces start) and file 0 is the a-file.

pub mod check;
pub mod executor;
pub mod fen;
pub mod game;
pub mod legal;
pub mod movegen;
pub mod notation;
pub mod text;
pub mod types;

pub use check::{check_for_checks, player_is_in_check};
pub use fen::{generate_fen, parse_fen, FenError};
pub use game::{Game, GameStatus};
pub use legal::{get_available_moves, get_available_moves_internal, NamedMoves, PieceMoves};
pub use notation::{get_algebraic_notation, get_board_coords, NotationError};
pub use types::{
    get_piece, is_enemy_piece, is_friendly_piece, Board, CastlingRights, Color, Coord, Piece,
    PieceKind, Position,
};
