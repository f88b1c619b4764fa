//! The legality filter: the pseudo-legal moves of a side that do not leave
//! its own king attacked.

use vstd::prelude::*;
use crate::check::{comes_before, lemma_check_reads_placement, player_is_in_check};
use crate::executor::{is_castle, two_apart};
use crate::movegen::push_new;
use crate::notation::{get_algebraic_notation, square_name};
use crate::types::{get_piece, Board, Color, Coord, Piece, PieceKind, Position};

verus! {

impl Position {
    /// Whether the move from `from` to `to` is a pseudo-legal move of a
    /// piece of `color`.
    pub open spec fn own_move(self, color: Color, from: Coord, to: Coord) -> bool {
        self.pseudo_legal(from, to) && (self.at(from) matches Some(p) && p.color == color)
    }

    /// Whether the move from `from` to `to` is a legal move of `color`: a
    /// pseudo-legal move of one of its pieces after which its king is not
    /// attacked, and not a castling move while it is in check.
    pub open spec fn legal_move(self, color: Color, from: Coord, to: Coord) -> bool {
        &&& self.own_move(color, from, to)
        &&& !self.after_move(from, to).in_check(color)
        &&& !(self.in_check(color) && is_castle(self.at(from)->Some_0, from, to))
    }

    /// Whether the move from `from` to `to` is offered to `color`: any
    /// pseudo-legal move of its pieces when `raw` is set, a legal move
    /// otherwise.
    pub open spec fn offered(self, color: Color, raw: bool, from: Coord, to: Coord) -> bool {
        if raw {
            self.own_move(color, from, to)
        } else {
            self.legal_move(color, from, to)
        }
    }

    /// Whether `color` has a legal move.
    pub open spec fn has_legal_move(self, color: Color) -> bool {
        exists|from: Coord, to: Coord| self.legal_move(color, from, to)
    }
}

/// The moves of one piece: the square it stands on and the squares it may
/// go to.
#[derive(Clone, Debug)]
pub struct PieceMoves {
    pub source: Coord,
    pub targets: Vec<Coord>,
}

/// Whether `list` holds the move from `from` to `to`.
pub open spec fn listed(list: Seq<PieceMoves>, from: Coord, to: Coord) -> bool {
    exists|i: int| 0 <= i < list.len() && (#[trigger] list[i]).source == from && list[i].targets@.contains(to)
}

/// A list of moves in which each piece appears once, in the order of the
/// squares read row by row, and with each of its destinations once, of
/// which it has at least one; every square lies on the board.
pub open spec fn tidy(list: Seq<PieceMoves>) -> bool {
    &&& forall|i: int|
        0 <= i < list.len() ==> (#[trigger] list[i]).source.wf() && list[i].targets@.len() > 0
            && list[i].targets@.no_duplicates()
    &&& forall|i: int, j: int|
        0 <= i < list.len() && 0 <= j < list[i].targets@.len() ==> (#[trigger] list[i].targets@[j]).wf()
    &&& forall|i: int, j: int|
        0 <= i < j < list.len() ==> comes_before(
            (#[trigger] list[i]).source,
            (#[trigger] list[j]).source.rank as int,
            list[j].source.file as int,
        )
}

/// Whether the king of `color` is attacked once the piece on `from` has gone
/// to `to`. The board itself is left as it is: the move is made on a copy.
pub fn leaves_king_attacked(board: &Board, from: Coord, to: Coord, color: Color) -> (r: bool)
    requires
        from.wf(),
        to.wf(),
        board@.at(from) is Some,
    ensures
        r == board@.after_move(from, to).in_check(color),
{
    let mut probe: Board = *board;
    // The counters start afresh on the copy, so that the move cannot overflow
    // them; whether a side is in check does not depend on them.
    probe.halfmove_counter = 0;
    probe.turn_counter = 0;
    let ghost start = probe@;
    probe.move_piece(from, to);
    proof {
        let a = start.after_move(from, to);
        let b = board@.after_move(from, to);
        assert(start.squares =~= board@.squares);
        assert(a.squares =~~= b.squares);
        lemma_check_reads_placement(a, b, color);
    }
    player_is_in_check(&probe, color)
}

/// The destinations among `moves` that are legal for the piece of `color`
/// on `from`; `in_check` says whether `color` is in check now.
fn legal_targets(
    board: &Board,
    from: Coord,
    piece: Piece,
    moves: &Vec<Coord>,
    in_check: bool,
) -> (kept: Vec<Coord>)
    requires
        from.wf(),
        board@.at(from) == Some(piece),
        in_check == board@.in_check(piece.color),
        moves@.no_duplicates(),
        forall|t: Coord| #[trigger] moves@.contains(t) <==> board@.pseudo_legal(from, t),
    ensures
        kept@.no_duplicates(),
        forall|t: Coord| #[trigger] kept@.contains(t) <==> board@.legal_move(piece.color, from, t),
{
    let mut kept: Vec<Coord> = Vec::new();
    let is_king: bool = piece.kind == PieceKind::King;
    let mut i: usize = 0;
    while i < moves.len()
        invariant
            i <= moves.len(),
            from.wf(),
            board@.at(from) == Some(piece),
            in_check == board@.in_check(piece.color),
            is_king == (piece.kind == PieceKind::King),
            moves@.no_duplicates(),
            forall|t: Coord| #[trigger] moves@.contains(t) <==> board@.pseudo_legal(from, t),
            kept@.no_duplicates(),
            forall|t: Coord|
                #[trigger] kept@.contains(t) <==> board@.legal_move(piece.color, from, t) && exists|
                    j: int,
                | 0 <= j < i && moves@[j] == t,
        decreases moves.len() - i,
    {
        let to: Coord = moves[i];
        assert(moves@.contains(to));
        let castles: bool = is_king && two_apart(to.file, from.file);
        let keep: bool = !(in_check && castles) && !leaves_king_attacked(
            board,
            from,
            to,
            piece.color,
        );
        assert(keep == board@.legal_move(piece.color, from, to));
        proof {
            if kept@.contains(to) {
                let j = choose|j: int| 0 <= j < i && moves@[j] == to;
                assert(moves@[j] == moves@[i as int]);
            }
        }
        let ghost prev = kept@;
        if keep {
            push_new(&mut kept, to);
        }
        i += 1;
        assert forall|t: Coord| #[trigger]
            kept@.contains(t) <==> board@.legal_move(piece.color, from, t) && exists|j: int|
                0 <= j < i && moves@[j] == t by {
            if prev.contains(t) {
                let j = choose|j: int| 0 <= j < i - 1 && moves@[j] == t;
                assert(0 <= j < i && moves@[j] == t);
            }
            if t == to {
                assert(moves@[i - 1] == t);
            }
            if board@.legal_move(piece.color, from, t) && exists|j: int|
                0 <= j < i && moves@[j] == t {
                let j = choose|j: int| 0 <= j < i && moves@[j] == t;
                if j < i - 1 {
                    assert(prev.contains(t));
                }
            }
        }
    }
    assert forall|t: Coord| #[trigger]
        kept@.contains(t) <==> board@.legal_move(piece.color, from, t) by {
        if board@.legal_move(piece.color, from, t) {
            assert(moves@.contains(t));
            let j = choose|j: int| 0 <= j < moves@.len() && moves@[j] == t;
            assert(0 <= j < i && moves@[j] == t);
        }
    }
    kept
}

/// The moves offered to `color` from the square `from`: none where no piece
/// of `color` stands there.
fn moves_from(board: &Board, from: Coord, color: Color, raw: bool, in_check: bool) -> (moves: Vec<
    Coord,
>)
    requires
        from.wf(),
        !raw ==> in_check == board@.in_check(color),
    ensures
        moves@.no_duplicates(),
        forall|to: Coord| #[trigger] moves@.contains(to) <==> board@.offered(color, raw, from, to),
{
    match get_piece(board, &from) {
        Some(piece) => {
            if piece.color == color {
                let all = board.get_piece_movements(&from, &piece);
                if raw {
                    all
                } else {
                    legal_targets(board, from, piece, &all, in_check)
                }
            } else {
                Vec::new()
            }
        },
        None => Vec::new(),
    }
}

/// Appends the moves of the piece on `source`, which the list does not hold
/// yet.
fn push_moves(out: &mut Vec<PieceMoves>, source: Coord, targets: Vec<Coord>)
    ensures
        final(out)@ == old(out)@.push(PieceMoves { source, targets }),
        forall|from: Coord, to: Coord|
            #[trigger] listed(final(out)@, from, to) <==> listed(old(out)@, from, to) || (from
                == source && targets@.contains(to)),
{
    let ghost entry = PieceMoves { source, targets };
    out.push(PieceMoves { source, targets });
    proof {
        let before = old(out)@;
        let after = out@;
        assert(after[before.len() as int] == entry);
        assert forall|from: Coord, to: Coord| #[trigger]
            listed(after, from, to) <==> listed(before, from, to) || (from == source
                && entry.targets@.contains(to)) by {
            if listed(before, from, to) {
                let i = choose|i: int|
                    0 <= i < before.len() && (#[trigger] before[i]).source == from
                        && before[i].targets@.contains(to);
                assert(after[i] == before[i]);
            }
            if from == source && entry.targets@.contains(to) {
                assert(after[before.len() as int].source == from);
            }
            if listed(after, from, to) {
                let i = choose|i: int|
                    0 <= i < after.len() && (#[trigger] after[i]).source == from
                        && after[i].targets@.contains(to);
                if i < before.len() {
                    assert(before[i] == after[i]);
                }
            }
        }
    }
}

/// The moves offered to `color` on `board`, piece by piece: every
/// pseudo-legal move of its pieces when `force_no_check` is set, its legal
/// moves otherwise. A piece without a move is left out.
pub fn get_available_moves_internal(board: Board, color: Color, force_no_check: bool) -> (out: Vec<
    PieceMoves,
>)
    ensures
        tidy(out@),
        forall|from: Coord, to: Coord|
            #[trigger] listed(out@, from, to) <==> board@.offered(color, force_no_check, from, to),
{
    let mut out: Vec<PieceMoves> = Vec::new();
    let in_check: bool = if force_no_check {
        false
    } else {
        player_is_in_check(&board, color)
    };
    let mut rank: u8 = 0;
    while rank < 8
        invariant
            rank <= 8,
            !force_no_check ==> in_check == board@.in_check(color),
            tidy(out@),
            forall|i: int|
                0 <= i < out@.len() ==> comes_before((#[trigger] out@[i]).source, rank as int, 0),
            forall|from: Coord, to: Coord|
                #[trigger] listed(out@, from, to) <==> comes_before(from, rank as int, 0)
                    && board@.offered(color, force_no_check, from, to),
        decreases 8 - rank,
    {
        let mut file: u8 = 0;
        while file < 8
            invariant
                rank < 8,
                file <= 8,
                !force_no_check ==> in_check == board@.in_check(color),
                tidy(out@),
                forall|i: int|
                    0 <= i < out@.len() ==> comes_before(
                        (#[trigger] out@[i]).source,
                        rank as int,
                        file as int,
                    ),
                forall|from: Coord, to: Coord|
                    #[trigger] listed(out@, from, to) <==> comes_before(
                        from,
                        rank as int,
                        file as int,
                    ) && board@.offered(color, force_no_check, from, to),
            decreases 8 - file,
        {
            let from = Coord { rank, file };
            let ghost prev = out@;
            let moves = moves_from(&board, from, color, force_no_check, in_check);
            let ghost added = moves@;
            if moves.len() > 0 {
                assert forall|j: int| 0 <= j < added.len() implies (#[trigger] added[j]).wf() by {
                    assert(added.contains(added[j]));
                }
                push_moves(&mut out, from, moves);
            } else {
                assert forall|to: Coord| !added.contains(to) by {
                    if added.contains(to) {
                        let i = choose|i: int| 0 <= i < added.len() && added[i] == to;
                    }
                }
            }
            assert forall|c: Coord, to: Coord| #[trigger]
                listed(out@, c, to) <==> comes_before(c, rank as int, file + 1) && board@.offered(
                    color,
                    force_no_check,
                    c,
                    to,
                ) by {
                if comes_before(c, rank as int, file + 1) && !comes_before(
                    c,
                    rank as int,
                    file as int,
                ) {
                    assert(c == from);
                }
                assert(added.contains(to) <==> board@.offered(color, force_no_check, from, to));
                if board@.offered(color, force_no_check, c, to) {
                    assert(c.wf());
                }
            }
            file += 1;
        }
        rank += 1;
    }
    assert forall|from: Coord, to: Coord| #[trigger]
        listed(out@, from, to) <==> board@.offered(color, force_no_check, from, to) by {
        if board@.offered(color, force_no_check, from, to) {
            assert(from.wf());
            assert(comes_before(from, 8, 0));
        }
    }
    out
}

/// The moves of one piece, each square by its name.
#[derive(Clone, Debug)]
pub struct NamedMoves {
    pub source: String,
    pub targets: Vec<String>,
}

/// Whether `named` is `moves` with each square written as its name.
pub open spec fn names_of(named: NamedMoves, moves: PieceMoves) -> bool {
    &&& named.source@ == square_name(moves.source)
    &&& named.targets@.len() == moves.targets@.len()
    &&& forall|j: int|
        0 <= j < named.targets@.len() ==> (#[trigger] named.targets@[j])@ == square_name(
            moves.targets@[j],
        )
}

/// Whether `out` is `list`, entry by entry, with each square written as its
/// name.
pub open spec fn names_of_all(out: Seq<NamedMoves>, list: Seq<PieceMoves>) -> bool {
    &&& out.len() == list.len()
    &&& forall|i: int| 0 <= i < out.len() ==> names_of(#[trigger] out[i], list[i])
}

/// The names of the squares in `targets`, in order.
fn names_of_targets(targets: &Vec<Coord>) -> (names: Vec<String>)
    requires
        forall|j: int| 0 <= j < targets@.len() ==> (#[trigger] targets@[j]).wf(),
    ensures
        names@.len() == targets@.len(),
        forall|j: int|
            0 <= j < names@.len() ==> (#[trigger] names@[j])@ == square_name(targets@[j]),
{
    let mut names: Vec<String> = Vec::new();
    let mut j: usize = 0;
    while j < targets.len()
        invariant
            j <= targets.len(),
            names@.len() == j,
            forall|k: int| 0 <= k < targets@.len() ==> (#[trigger] targets@[k]).wf(),
            forall|k: int| 0 <= k < j ==> (#[trigger] names@[k])@ == square_name(targets@[k]),
        decreases targets.len() - j,
    {
        names.push(get_algebraic_notation(targets[j]));
        j += 1;
    }
    names
}

/// The moves offered to `color` on `board`, each square by its name: the
/// names of some tidy list of exactly the offered moves.
pub fn get_available_moves(board: Board, color: Color, force_no_check: bool) -> (out: Vec<
    NamedMoves,
>)
    ensures
        exists|list: Seq<PieceMoves>|
            {
                &&& tidy(list)
                &&& forall|from: Coord, to: Coord|
                    #[trigger] listed(list, from, to) <==> board@.offered(
                        color,
                        force_no_check,
                        from,
                        to,
                    )
                &&& #[trigger] names_of_all(out@, list)
            },
{
    let list = get_available_moves_internal(board, color, force_no_check);
    let mut out: Vec<NamedMoves> = Vec::new();
    let mut i: usize = 0;
    while i < list.len()
        invariant
            i <= list.len(),
            out@.len() == i,
            tidy(list@),
            forall|k: int| 0 <= k < i ==> names_of(#[trigger] out@[k], list@[k]),
        decreases list.len() - i,
    {
        let entry = &list[i];
        assert forall|j: int| 0 <= j < entry.targets@.len() implies (#[trigger] entry.targets@[j]).wf() by {
            assert(list@[i as int].targets@[j].wf());
        }
        let source = get_algebraic_notation(entry.source);
        let targets = names_of_targets(&entry.targets);
        out.push(NamedMoves { source, targets });
        i += 1;
    }
    assert(names_of_all(out@, list@));
    out
}

/// After a legal move of `color`, no piece of the other side has a
/// pseudo-legal move onto the king of `color`: the king cannot be captured
/// on the next move.
pub proof fn lemma_legal_move_keeps_king_safe(p: Position, color: Color, from: Coord, to: Coord)
    requires
        p.legal_move(color, from, to),
    ensures
        forall|a: Coord, b: Coord|
            (p.after_move(from, to).at(a) matches Some(piece) && piece.color == color.other())
                && #[trigger] p.after_move(from, to).pseudo_legal(a, b) ==> p.after_move(
                from,
                to,
            ).at(b) != Some(Piece { kind: PieceKind::King, color }),
{
    let q = p.after_move(from, to);
    assert forall|a: Coord, b: Coord|
        (q.at(a) matches Some(piece) && piece.color == color.other()) && #[trigger] q.pseudo_legal(a, b)
        implies q.at(b) != Some(Piece { kind: PieceKind::King, color }) by {
        if q.at(b) == Some(Piece { kind: PieceKind::King, color }) {
            assert(q.threat(color, a, b));
        }
    }
}

/// A king with the right to castle, on its home square with the squares
/// between it and the rook empty, may castle if it is not in check and is
/// not attacked where it lands.
pub proof fn lemma_castling_is_legal(p: Position, color: Color, kingside: bool)
    requires
        p.sq(color.home_rank(), 4) == Some(Piece { kind: PieceKind::King, color }),
        if kingside {
            p.may_castle_kingside(color.home_rank(), 4, color)
        } else {
            p.may_castle_queenside(color.home_rank(), 4, color)
        },
        !p.in_check(color),
        !p.after_move(
            Coord { rank: color.home_rank() as u8, file: 4 },
            Coord { rank: color.home_rank() as u8, file: if kingside { 6u8 } else { 2u8 } },
        ).in_check(color),
    ensures
        p.legal_move(
            color,
            Coord { rank: color.home_rank() as u8, file: 4 },
            Coord { rank: color.home_rank() as u8, file: if kingside { 6u8 } else { 2u8 } },
        ),
{
}

impl Position {
    /// The side that has just moved is not in check.
    pub open spec fn sound(self) -> bool {
        !self.in_check(self.active.other())
    }
}

/// A legal move of the side to move leaves a position in which the side
/// that has just moved is not in check.
pub proof fn lemma_legal_move_keeps_soundness(p: Position, from: Coord, to: Coord)
    requires
        p.legal_move(p.active, from, to),
    ensures
        p.after_move(from, to).sound(),
{
}

/// Where the side that has just moved is not in check, no legal move of
/// the side to move lands on the other king.
pub proof fn lemma_legal_move_spares_king(p: Position, from: Coord, to: Coord)
    requires
        p.sound(),
        p.legal_move(p.active, from, to),
    ensures
        p.at(to) != Some(Piece { kind: PieceKind::King, color: p.active.other() }),
{
    if p.at(to) == Some(Piece { kind: PieceKind::King, color: p.active.other() }) {
        assert(p.threat(p.active.other(), from, to));
    }
}

} // verus!
