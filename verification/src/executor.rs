//! Move execution: what a board looks like after a move, and the function
//! that makes the move. Nothing here asks whether the move is legal.

use vstd::prelude::*;
use crate::fen::{letter_kind, piece_of_letter};
use crate::movegen::abs;
use crate::types::{get_piece, on_board, Board, CastlingRights, Color, Coord, Piece, PieceKind, Position};

verus! {

impl CastlingRights {
    /// The rights that remain once `piece` has left the square `(r, f)`: a
    /// king gives up both rights of its side, a rook that leaves its home
    /// corner gives up the right on that wing.
    pub open spec fn after_leaving(self, piece: Piece, r: int, f: int) -> CastlingRights {
        let home = r == piece.color.home_rank();
        let king = piece.kind == PieceKind::King;
        let near_rook = piece.kind == PieceKind::Rook && home && f == 7;
        let far_rook = piece.kind == PieceKind::Rook && home && f == 0;
        let white = piece.color == Color::White;
        CastlingRights {
            white_kingside: self.white_kingside && !(white && (king || near_rook)),
            white_queenside: self.white_queenside && !(white && (king || far_rook)),
            black_kingside: self.black_kingside && !(!white && (king || near_rook)),
            black_queenside: self.black_queenside && !(!white && (king || far_rook)),
        }
    }
}

impl Position {
    /// The piece that stands on the destination once `piece` has moved to
    /// rank `to_rank`: a pawn on its last rank becomes the promotion choice.
    pub open spec fn landing(self, piece: Piece, to_rank: int) -> Piece {
        if piece.kind == PieceKind::Pawn && to_rank == piece.color.last_rank() {
            Piece { kind: self.promotion, color: piece.color }
        } else {
            piece
        }
    }

    /// Whether `piece` going from `from` to `to` captures en passant: a pawn
    /// changes file and lands on the en-passant target.
    pub open spec fn takes_en_passant(self, piece: Piece, from: Coord, to: Coord) -> bool {
        piece.kind == PieceKind::Pawn && to.file != from.file && self.en_passant == Some(to)
    }

    /// Whether a move from `from` to `to` captures: the destination is
    /// occupied.
    pub open spec fn captures(self, to: Coord) -> bool {
        self.at(to) is Some
    }

    /// The content of `(r, f)` after the piece on `from` has gone to `to`.
    /// A king that moves two files takes the rook of that wing from its
    /// corner to the square it crossed; a pawn that captures en passant
    /// removes the piece beside it, on the destination's file.
    pub open spec fn square_after(self, piece: Piece, from: Coord, to: Coord, r: int, f: int) -> Option<
        Piece,
    > {
        let castles = is_castle(piece, from, to);
        let kingside = to.file > from.file;
        if castles && r == to.rank && f == (if kingside {
            to.file - 1
        } else {
            to.file + 1
        }) {
            Some(Piece { kind: PieceKind::Rook, color: piece.color })
        } else if castles && r == piece.color.home_rank() && f == (if kingside {
            7int
        } else {
            0int
        }) {
            None
        } else if self.takes_en_passant(piece, from, to) && r == from.rank && f == to.file {
            None
        } else if to.is(r, f) {
            Some(self.landing(piece, to.rank as int))
        } else if from.is(r, f) {
            None
        } else {
            self.sq(r, f)
        }
    }

    /// The position after the piece on `from` has gone to `to`; the position
    /// itself where `from` is empty.
    pub open spec fn after_move(self, from: Coord, to: Coord) -> Position {
        match self.at(from) {
            None => self,
            Some(piece) => Position {
                squares: Seq::new(
                    8,
                    |r: int| Seq::new(8, |f: int| self.square_after(piece, from, to, r, f)),
                ),
                active: self.active.other(),
                castling: self.castling.after_leaving(piece, from.rank as int, from.file as int),
                en_passant: if is_double_push(piece, from, to) {
                    Some(Coord { rank: ((from.rank + to.rank) / 2) as u8, file: from.file })
                } else {
                    None
                },
                halfmove: if self.captures(to) || piece.kind == PieceKind::Pawn {
                    0
                } else {
                    self.halfmove + 1
                },
                turn: if self.active == Color::Black {
                    self.turn + 1
                } else {
                    self.turn
                },
                promotion: self.promotion,
            },
        }
    }
}

/// Whether `piece` going from `from` to `to` castles: a king moves two files.
pub open spec fn is_castle(piece: Piece, from: Coord, to: Coord) -> bool {
    piece.kind == PieceKind::King && abs(to.file - from.file) == 2
}

/// Whether `piece` going from `from` to `to` is a pawn advancing two ranks.
pub open spec fn is_double_push(piece: Piece, from: Coord, to: Coord) -> bool {
    piece.kind == PieceKind::Pawn && abs(to.rank - from.rank) == 2
}

/// Whether `a` and `b` differ by exactly two.
pub(crate) fn two_apart(a: u8, b: u8) -> (r: bool)
    ensures
        r == (abs(a - b) == 2),
{
    (a > b && a - b == 2) || (b > a && b - a == 2)
}

impl Board {
    /// Makes the move from `source` to `target`: moves the piece, with
    /// promotion, en-passant capture and the rook's part in castling; updates
    /// castling rights, en-passant target and both counters; gives the move
    /// to the other side. The move is not checked for legality.
    pub fn move_piece(&mut self, source: Coord, target: Coord)
        requires
            source.wf(),
            target.wf(),
            old(self)@.at(source) is Some,
            old(self).halfmove_counter < u32::MAX,
            old(self).turn_counter < u64::MAX,
        ensures
            final(self)@ == old(self)@.after_move(source, target),
            old(self).wf() ==> final(self).wf(),
    {
        let piece: Piece = get_piece(self, &source).unwrap();
        let white: bool = piece.color == Color::White;
        let home: u8 = if white { 7 } else { 0 };
        let last: u8 = if white { 0 } else { 7 };
        let is_pawn: bool = piece.kind == PieceKind::Pawn;
        let is_king: bool = piece.kind == PieceKind::King;
        let is_rook: bool = piece.kind == PieceKind::Rook;
        let captures: bool = get_piece(self, &target).is_some();
        let castles: bool = is_king && two_apart(target.file, source.file);
        let en_passant: bool = is_pawn && target.file != source.file && match self.en_passant_square {
            Some(e) => e.rank == target.rank && e.file == target.file,
            None => false,
        };

        let near_rook: bool = is_rook && source.rank == home && source.file == 7;
        let far_rook: bool = is_rook && source.rank == home && source.file == 0;
        let rights = self.castling_availability;
        self.castling_availability = CastlingRights {
            white_kingside: rights.white_kingside && !(white && (is_king || near_rook)),
            white_queenside: rights.white_queenside && !(white && (is_king || far_rook)),
            black_kingside: rights.black_kingside && !(!white && (is_king || near_rook)),
            black_queenside: rights.black_queenside && !(!white && (is_king || far_rook)),
        };

        if is_pawn && two_apart(target.rank, source.rank) {
            self.en_passant_square = Some(
                Coord { rank: (source.rank + target.rank) / 2, file: source.file },
            );
        } else {
            self.en_passant_square = None;
        }

        if captures || is_pawn {
            self.halfmove_counter = 0;
        } else {
            self.halfmove_counter = self.halfmove_counter + 1;
        }

        self.set_piece(&source, None);
        if is_pawn && target.rank == last {
            self.set_piece(&target, Some(Piece { kind: self.promotion_selection, color: piece.color }));
        } else {
            self.set_piece(&target, Some(piece));
        }
        if en_passant {
            self.set_piece(&Coord { rank: source.rank, file: target.file }, None);
        }
        if castles {
            let rook = Some(Piece { kind: PieceKind::Rook, color: piece.color });
            if target.file > source.file {
                self.set_piece(&Coord { rank: home, file: 7 }, None);
                self.set_piece(&Coord { rank: target.rank, file: target.file - 1 }, rook);
            } else {
                self.set_piece(&Coord { rank: home, file: 0 }, None);
                self.set_piece(&Coord { rank: target.rank, file: target.file + 1 }, rook);
            }
        }

        match self.active_player {
            Color::White => {
                self.active_player = Color::Black;
            },
            Color::Black => {
                self.active_player = Color::White;
                self.turn_counter = self.turn_counter + 1;
            },
        }
        proof {
            let goal = old(self)@.after_move(source, target);
            assert forall|r: int, f: int| on_board(r, f) implies #[trigger] self@.sq(r, f)
                == goal.sq(r, f) by {}
            assert forall|r: int| 0 <= r < 8 implies #[trigger] self@.squares[r] =~= goal.squares[r] by {
                assert forall|f: int| 0 <= f < 8 implies self@.squares[r][f] == goal.squares[r][f] by {
                    assert(self@.sq(r, f) == goal.sq(r, f));
                }
            }
            assert(self@.squares =~= goal.squares);
        }
    }
}

/// The kind that a pawn promotes to when `c` is chosen: the kind whose
/// letter, in either case, is `c`, if a pawn may promote to it.
pub open spec fn promotion_choice(c: char) -> Option<PieceKind> {
    match letter_kind(c) {
        Some(kind) => if kind.promotable() {
            Some(kind)
        } else {
            None
        },
        None => None,
    }
}

impl Board {
    /// Chooses the kind that pawns promote to, by its letter in either
    /// case: bishop, knight, rook or queen. With any other character the
    /// choice stays as it was and the result is `false`.
    pub fn set_promotion(&mut self, piece: char) -> (ok: bool)
        ensures
            ok == promotion_choice(piece) is Some,
            ok ==> *final(self) == (Board {
                promotion_selection: promotion_choice(piece)->Some_0,
                ..*old(self)
            }),
            !ok ==> *final(self) == *old(self),
    {
        match piece_of_letter(piece) {
            Some(p) => {
                if p.kind == PieceKind::Pawn || p.kind == PieceKind::King {
                    false
                } else {
                    self.promotion_selection = p.kind;
                    true
                }
            },
            None => false,
        }
    }
}

/// A pawn that makes a pseudo-legal move onto its last rank is replaced
/// there by a piece of its own side and of the kind chosen for promotion.
pub proof fn lemma_promotion(p: Position, from: Coord, to: Coord, color: Color)
    requires
        p.at(from) == Some(Piece { kind: PieceKind::Pawn, color }),
        p.pseudo_legal(from, to),
        to.rank == color.last_rank(),
    ensures
        p.after_move(from, to).at(to) == Some(Piece { kind: p.promotion, color }),
        p.after_move(from, to).at(from) is None,
{
}

/// A pawn beside which the en-passant target lies, diagonally ahead, may
/// go there; the move empties the square beside the pawn on the target's
/// file, where the pawn that advanced two squares stands, and puts the
/// capturing pawn on the target.
pub proof fn lemma_en_passant_capture(p: Position, from: Coord, to: Coord, color: Color)
    requires
        from.wf(),
        to.wf(),
        p.at(from) == Some(Piece { kind: PieceKind::Pawn, color }),
        p.en_passant == Some(to),
        to.rank == from.rank + color.forward(),
        abs(to.file - from.file) == 1,
    ensures
        p.pseudo_legal(from, to),
        p.after_move(from, to).sq(from.rank as int, to.file as int) is None,
        p.after_move(from, to).at(to) == Some(
            p.landing(Piece { kind: PieceKind::Pawn, color }, to.rank as int),
        ),
        p.after_move(from, to).at(from) is None,
{
}

/// After a pawn has advanced two squares from its starting rank and come
/// to stand beside an enemy pawn, that pawn may capture onto the square
/// skipped, and doing so removes the pawn that advanced, not anything on
/// the square where the capturing pawn lands.
pub proof fn lemma_double_push_then_en_passant(p: Position, from: Coord, to: Coord, by: Coord)
    requires
        from.wf(),
        to.wf(),
        by.wf(),
        p.at(from) matches Some(pawn) && pawn.kind == PieceKind::Pawn && from.rank
            == pawn.color.pawn_rank() && to.rank == from.rank + 2 * pawn.color.forward()
            && p.at(by) == Some(Piece { kind: PieceKind::Pawn, color: pawn.color.other() }),
        to.file == from.file,
        by.rank == to.rank,
        abs(by.file - to.file) == 1,
    ensures
        ({
            let mover = p.at(from)->Some_0.color;
            let skipped = Coord { rank: ((from.rank + to.rank) / 2) as u8, file: from.file };
            let q = p.after_move(from, to);
            let taker = Piece { kind: PieceKind::Pawn, color: mover.other() };
            &&& q.en_passant == Some(skipped)
            &&& q.at(to) == Some(Piece { kind: PieceKind::Pawn, color: mover })
            &&& q.at(by) == Some(taker)
            &&& q.pseudo_legal(by, skipped)
            &&& q.after_move(by, skipped).at(to) is None
            &&& q.after_move(by, skipped).at(skipped) == Some(taker)
            &&& q.after_move(by, skipped).at(by) is None
        }),
{
}

/// A king that castles ends two files from its home square, and the rook
/// of that wing leaves its corner for the square that the king crossed.
pub proof fn lemma_castling_moves_rook(p: Position, from: Coord, to: Coord, color: Color)
    requires
        from.wf(),
        to.wf(),
        p.at(from) == Some(Piece { kind: PieceKind::King, color }),
        from.is(color.home_rank(), 4),
        to.rank == from.rank,
        to.file == 6 || to.file == 2,
    ensures
        ({
            let q = p.after_move(from, to);
            let home = color.home_rank();
            let rook = Some(Piece { kind: PieceKind::Rook, color });
            &&& q.at(to) == Some(Piece { kind: PieceKind::King, color })
            &&& q.at(from) is None
            &&& to.file == 6 ==> q.sq(home, 5) == rook && q.sq(home, 7) is None
            &&& to.file == 2 ==> q.sq(home, 3) == rook && q.sq(home, 0) is None
            &&& !q.castling.kingside(color)
            &&& !q.castling.queenside(color)
        }),
{
}

/// No move gives a castling right back: the rights after a move are among
/// those before it. A king that moves loses both rights of its side, and a
/// rook that leaves its home corner loses the right of that wing.
pub proof fn lemma_castling_rights_shrink(p: Position, from: Coord, to: Coord)
    ensures
        p.after_move(from, to).castling.within(p.castling),
        p.at(from) matches Some(piece) ==> {
            let after = p.after_move(from, to).castling;
            &&& piece.kind == PieceKind::King ==> !after.kingside(piece.color) && !after.queenside(
                piece.color,
            )
            &&& piece.kind == PieceKind::Rook && from.is(piece.color.home_rank(), 7)
                ==> !after.kingside(piece.color)
            &&& piece.kind == PieceKind::Rook && from.is(piece.color.home_rank(), 0)
                ==> !after.queenside(piece.color)
        },
{
}

/// Holding no more rights than before carries over any number of moves.
pub proof fn lemma_within_is_transitive(a: CastlingRights, b: CastlingRights, c: CastlingRights)
    requires
        a.within(b),
        b.within(c),
    ensures
        a.within(c),
{
}

} // verus!
