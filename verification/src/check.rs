//! Check detection: whether the other side has a pseudo-legal move onto the
//! square of a side's king.

use vstd::prelude::*;
use crate::movegen::{dist, sign};
use crate::types::{get_piece, Board, Color, Coord, Piece, PieceKind, Position};

verus! {

impl Position {
    /// Whether the move from `from` to `to` is a pseudo-legal move of the
    /// opponent of `color` onto the king of `color`.
    pub open spec fn threat(self, color: Color, from: Coord, to: Coord) -> bool {
        &&& self.pseudo_legal(from, to)
        &&& self.at(from) matches Some(p) && p.color == color.other()
        &&& self.at(to) == Some(Piece { kind: PieceKind::King, color })
    }

    /// Whether `color` is in check: some piece of the other side has a
    /// pseudo-legal move onto the king of `color`.
    pub open spec fn in_check(self, color: Color) -> bool {
        exists|from: Coord, to: Coord| self.threat(color, from, to)
    }
}

/// Whether `(rank, file)` comes before `(r, f)` when the board is read row
/// by row.
pub open spec fn comes_before(c: Coord, r: int, f: int) -> bool {
    c.rank < r || (c.rank == r && c.file < f)
}

/// Two positions with the same grid, castling rights and en-passant target
/// allow the same pseudo-legal moves.
pub proof fn lemma_same_reach(p: Position, q: Position, from: Coord, to: Coord)
    requires
        p.squares == q.squares,
        p.castling == q.castling,
        p.en_passant == q.en_passant,
    ensures
        p.pseudo_legal(from, to) == q.pseudo_legal(from, to),
{
    let r = from.rank as int;
    let f = from.file as int;
    let tr = to.rank as int;
    let tf = to.file as int;
    assert(p.clear_between(r, f, tr, tf) == q.clear_between(r, f, tr, tf)) by {
        if p.clear_between(r, f, tr, tf) {
            assert forall|k: int| 0 < k < dist(tr - r, tf - f) implies #[trigger] q.ray_empty(
                r,
                f,
                sign(tr - r),
                sign(tf - f),
                k,
            ) by {
                assert(p.ray_empty(
                    r,
                    f,
                    sign(tr - r),
                    sign(tf - f),
                    k,
                ));
            }
        }
        if q.clear_between(r, f, tr, tf) {
            assert forall|k: int| 0 < k < dist(tr - r, tf - f) implies #[trigger] p.ray_empty(
                r,
                f,
                sign(tr - r),
                sign(tf - f),
                k,
            ) by {
                assert(q.ray_empty(
                    r,
                    f,
                    sign(tr - r),
                    sign(tf - f),
                    k,
                ));
            }
        }
    }
}

/// Whether a side is in check depends only on the grid, the castling rights
/// and the en-passant target.
pub proof fn lemma_check_reads_placement(p: Position, q: Position, color: Color)
    requires
        p.squares == q.squares,
        p.castling == q.castling,
        p.en_passant == q.en_passant,
    ensures
        p.in_check(color) == q.in_check(color),
{
    if p.in_check(color) {
        let (from, to) = choose|from: Coord, to: Coord| p.threat(color, from, to);
        lemma_same_reach(p, q, from, to);
        assert(q.threat(color, from, to));
    }
    if q.in_check(color) {
        let (from, to) = choose|from: Coord, to: Coord| q.threat(color, from, to);
        lemma_same_reach(p, q, from, to);
        assert(p.threat(color, from, to));
    }
}

/// Whether the square at `c` holds the king of `color`.
fn holds_king(board: &Board, c: &Coord, color: Color) -> (r: bool)
    requires
        c.wf(),
    ensures
        r == (board@.at(*c) == Some(Piece { kind: PieceKind::King, color })),
{
    match get_piece(board, c) {
        Some(p) => p.kind == PieceKind::King && p.color == color,
        None => false,
    }
}

/// Whether one of the squares in `moves` holds the king of `color`.
fn any_holds_king(board: &Board, moves: &Vec<Coord>, color: Color) -> (r: bool)
    requires
        forall|t: Coord| #[trigger] moves@.contains(t) ==> t.wf(),
    ensures
        r == exists|t: Coord|
            #[trigger] moves@.contains(t) && board@.at(t) == Some(
                Piece { kind: PieceKind::King, color },
            ),
{
    let mut i: usize = 0;
    while i < moves.len()
        invariant
            i <= moves.len(),
            forall|t: Coord| #[trigger] moves@.contains(t) ==> t.wf(),
            forall|j: int|
                0 <= j < i ==> board@.at(#[trigger] moves@[j]) != Some(
                    Piece { kind: PieceKind::King, color },
                ),
        decreases moves.len() - i,
    {
        assert(moves@.contains(moves@[i as int]));
        if holds_king(board, &moves[i], color) {
            return true;
        }
        i += 1;
    }
    false
}

/// Whether `player` is in check.
pub fn player_is_in_check(board: &Board, player: Color) -> (r: bool)
    ensures
        r == board@.in_check(player),
{
    let enemy = player.opposite();
    let mut rank: u8 = 0;
    while rank < 8
        invariant
            rank <= 8,
            enemy == player.other(),
            forall|from: Coord, to: Coord|
                comes_before(from, rank as int, 0) ==> !#[trigger] board@.threat(player, from, to),
        decreases 8 - rank,
    {
        let mut file: u8 = 0;
        while file < 8
            invariant
                rank < 8,
                file <= 8,
                enemy == player.other(),
                forall|from: Coord, to: Coord|
                    comes_before(from, rank as int, file as int) ==> !#[trigger] board@.threat(
                        player,
                        from,
                        to,
                    ),
            decreases 8 - file,
        {
            let from = Coord { rank, file };
            match get_piece(board, &from) {
                Some(piece) => {
                    if piece.color == enemy {
                        let moves = board.get_piece_movements(&from, &piece);
                        if any_holds_king(board, &moves, player) {
                            proof {
                                let to = choose|t: Coord|
                                    #[trigger] moves@.contains(t) && board@.at(t) == Some(
                                        Piece { kind: PieceKind::King, color: player },
                                    );
                                assert(board@.threat(player, from, to));
                            }
                            return true;
                        }
                        assert forall|to: Coord| !#[trigger] board@.threat(player, from, to) by {
                            if board@.threat(player, from, to) {
                                assert(moves@.contains(to));
                            }
                        }
                    }
                },
                None => {},
            }
            assert forall|c: Coord, to: Coord|
                comes_before(c, rank as int, file + 1) implies !#[trigger] board@.threat(
                player,
                c,
                to,
            ) by {
                if !comes_before(c, rank as int, file as int) {
                    assert(c == from);
                }
            }
            file += 1;
        }
        rank += 1;
    }
    assert forall|from: Coord, to: Coord| !#[trigger] board@.threat(player, from, to) by {
        if from.wf() {
            assert(comes_before(from, 8, 0));
        }
    }
    false
}

/// Whether White is in check, then whether Black is.
pub fn check_for_checks(board: &Board) -> (checks: [bool; 2])
    ensures
        checks[0] == board@.in_check(Color::White),
        checks[1] == board@.in_check(Color::Black),
{
    [player_is_in_check(board, Color::White), player_is_in_check(board, Color::Black)]
}

} // verus!
