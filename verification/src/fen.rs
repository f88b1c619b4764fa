//! Position text: six fields separated by single spaces. The grid, rank by
//! rank from rank 0, rows separated by `/`; the side to move, `w` or `b`;
//! the castling rights, `-` or some of `KQkq` in that order; the en-passant
//! target, `-` or the name of a square; the halfmove clock; the fullmove
//! number.

use vstd::prelude::*;
use crate::notation::{
    chars_of_coord, coord_of_chars, lemma_name_then_read, lemma_read_then_name, square_name,
    square_of,
};
use crate::text::{
    chars_of, decimal_text, decimal_value, digit_char, free_of, is_decimal, join,
    lemma_decimal_free_of, lemma_decimal_text_of_value, lemma_decimal_value_of_text,
    lemma_join_free_of, lemma_join_push, lemma_join_split, lemma_split_join, push_all,
    push_decimal, read_decimal, split, split_chars, string_of, views_are,
};
use crate::types::{Board, CastlingRights, Color, Coord, Piece, PieceKind, Position};

verus! {

/// Which field of a position text is malformed.
#[derive(Clone, Copy, Debug, PartialEq, Eq, Structural)]
pub enum FenError {
    /// The text does not have six fields.
    FieldCount,
    /// The grid does not have eight rows of eight squares each, written
    /// with piece letters and run lengths `1` to `8`, no two runs in a row.
    Placement,
    /// The side to move is neither `w` nor `b`.
    ActiveColor,
    /// The castling rights are neither `-` nor some of `KQkq` in that order.
    Castling,
    /// The en-passant target is neither `-` nor the name of a square.
    EnPassant,
    /// The halfmove clock is not a decimal number that fits in 32 bits.
    HalfmoveClock,
    /// The fullmove number is not a decimal number that fits in 64 bits.
    FullmoveNumber,
}

/// The letter of a piece: upper case for White, lower case for Black.
pub open spec fn piece_letter(p: Piece) -> char {
    match p.color {
        Color::White => match p.kind {
            PieceKind::Pawn => 'P',
            PieceKind::Knight => 'N',
            PieceKind::Bishop => 'B',
            PieceKind::Rook => 'R',
            PieceKind::Queen => 'Q',
            PieceKind::King => 'K',
        },
        Color::Black => match p.kind {
            PieceKind::Pawn => 'p',
            PieceKind::Knight => 'n',
            PieceKind::Bishop => 'b',
            PieceKind::Rook => 'r',
            PieceKind::Queen => 'q',
            PieceKind::King => 'k',
        },
    }
}

/// The kind whose letter, in either case, is `c`.
pub open spec fn letter_kind(c: char) -> Option<PieceKind> {
    if c == 'P' || c == 'p' {
        Some(PieceKind::Pawn)
    } else if c == 'N' || c == 'n' {
        Some(PieceKind::Knight)
    } else if c == 'B' || c == 'b' {
        Some(PieceKind::Bishop)
    } else if c == 'R' || c == 'r' {
        Some(PieceKind::Rook)
    } else if c == 'Q' || c == 'q' {
        Some(PieceKind::Queen)
    } else if c == 'K' || c == 'k' {
        Some(PieceKind::King)
    } else {
        None
    }
}

/// The piece whose letter is `c`.
pub open spec fn letter_piece(c: char) -> Option<Piece> {
    match letter_kind(c) {
        Some(kind) => Some(
            Piece { kind, color: if 'A' <= c <= 'Z' {
                Color::White
            } else {
                Color::Black
            } },
        ),
        None => None,
    }
}

/// Whether `c` is a run length: a digit from `1` to `8`.
pub open spec fn is_run(c: char) -> bool {
    '1' <= c <= '8'
}

/// The number of empty squares that the run length `c` stands for.
pub open spec fn run_length(c: char) -> nat {
    (c as int - '0' as int) as nat
}

/// `n` empty squares.
pub open spec fn empties(n: nat) -> Seq<Option<Piece>> {
    Seq::new(n, |i: int| None)
}

/// The squares that the row text `t` writes: a piece for each letter, as
/// many empty squares as each run length says.
pub open spec fn row_squares(t: Seq<char>) -> Seq<Option<Piece>>
    decreases t.len(),
{
    if t.len() == 0 {
        Seq::empty()
    } else if is_run(t.last()) {
        row_squares(t.drop_last()) + empties(run_length(t.last()))
    } else {
        row_squares(t.drop_last()).push(letter_piece(t.last()))
    }
}

/// Whether `t` is made of piece letters and run lengths, no two run lengths
/// in a row.
pub open spec fn row_chars_ok(t: Seq<char>) -> bool {
    forall|i: int|
        0 <= i < t.len() ==> {
            &&& is_run(#[trigger] t[i]) || letter_piece(t[i]) is Some
            &&& i > 0 && is_run(t[i]) ==> !is_run(t[i - 1])
        }
}

/// Whether `t` is the text of a row of eight squares.
pub open spec fn row_ok(t: Seq<char>) -> bool {
    row_chars_ok(t) && row_squares(t).len() == 8
}

/// The run length that closes a row text after `n` empty squares: nothing
/// for none.
pub open spec fn run_text(n: nat) -> Seq<char> {
    if n == 0 {
        Seq::empty()
    } else {
        seq![digit_char(n)]
    }
}

/// The text of the squares `sq` when `pending` empty squares follow them:
/// each piece by its letter, each longest run of empty squares by its
/// length.
pub open spec fn row_text_before(sq: Seq<Option<Piece>>, pending: nat) -> Seq<char>
    decreases sq.len(),
{
    if sq.len() == 0 {
        run_text(pending)
    } else {
        match sq.last() {
            None => row_text_before(sq.drop_last(), pending + 1),
            Some(p) => row_text_before(sq.drop_last(), 0).push(piece_letter(p)) + run_text(
                pending,
            ),
        }
    }
}

/// The text of a row.
pub open spec fn row_text(sq: Seq<Option<Piece>>) -> Seq<char> {
    row_text_before(sq, 0)
}

/// The text of a grid of eight rows.
pub open spec fn grid_text(squares: Seq<Seq<Option<Piece>>>) -> Seq<char> {
    join(Seq::new(8, |r: int| row_text(squares[r])), '/')
}

/// Whether `t` is the text of a grid: eight rows, each the text of a row.
pub open spec fn grid_ok(t: Seq<char>) -> bool {
    let rows = split(t, '/');
    rows.len() == 8 && forall|r: int| 0 <= r < 8 ==> row_ok(#[trigger] rows[r])
}

/// The grid that the text `t` writes.
pub open spec fn grid_squares(t: Seq<char>) -> Seq<Seq<Option<Piece>>> {
    Seq::new(8, |r: int| row_squares(split(t, '/')[r]))
}

/// The text of a side.
pub open spec fn color_text(c: Color) -> Seq<char> {
    match c {
        Color::White => seq!['w'],
        Color::Black => seq!['b'],
    }
}

/// The side that `t` writes; White where it writes none.
pub open spec fn color_of(t: Seq<char>) -> Color {
    if t == seq!['b'] {
        Color::Black
    } else {
        Color::White
    }
}

/// Whether `t` writes a side.
pub open spec fn color_ok(t: Seq<char>) -> bool {
    t == seq!['w'] || t == seq!['b']
}

/// The letter `c` where `held` is set, nothing otherwise.
pub open spec fn mark(held: bool, c: char) -> Seq<char> {
    if held {
        seq![c]
    } else {
        Seq::empty()
    }
}

/// The letters of the rights held, in the order `KQkq`.
pub open spec fn marks(r: CastlingRights) -> Seq<char> {
    mark(r.white_kingside, 'K') + mark(r.white_queenside, 'Q') + mark(r.black_kingside, 'k')
        + mark(r.black_queenside, 'q')
}

/// The text of castling rights: `-` where none is held.
pub open spec fn castling_text(r: CastlingRights) -> Seq<char> {
    if marks(r).len() == 0 {
        seq!['-']
    } else {
        marks(r)
    }
}

/// The rights whose letters occur in `t`.
pub open spec fn castling_of(t: Seq<char>) -> CastlingRights {
    CastlingRights {
        white_kingside: t.contains('K'),
        white_queenside: t.contains('Q'),
        black_kingside: t.contains('k'),
        black_queenside: t.contains('q'),
    }
}

/// Whether `t` is the text of some castling rights.
pub open spec fn castling_ok(t: Seq<char>) -> bool {
    exists|r: CastlingRights| t == #[trigger] castling_text(r)
}

/// The text of an en-passant target.
pub open spec fn en_passant_text(e: Option<Coord>) -> Seq<char> {
    match e {
        None => seq!['-'],
        Some(c) => square_name(c),
    }
}

/// Whether `t` writes an en-passant target.
pub open spec fn en_passant_ok(t: Seq<char>) -> bool {
    t == seq!['-'] || square_of(t) is Ok
}

/// The en-passant target that `t` writes.
pub open spec fn en_passant_of(t: Seq<char>) -> Option<Coord> {
    match square_of(t) {
        Ok(c) => Some(c),
        Err(_) => None,
    }
}

/// Whether `t` writes a counter of at most `max`.
pub open spec fn counter_ok(t: Seq<char>, max: nat) -> bool {
    is_decimal(t) && decimal_value(t) <= max
}

/// The six fields of the text of a position.
pub open spec fn fen_fields(p: Position) -> Seq<Seq<char>> {
    seq![
        grid_text(p.squares),
        color_text(p.active),
        castling_text(p.castling),
        en_passant_text(p.en_passant),
        decimal_text(p.halfmove),
        decimal_text(p.turn),
    ]
}

/// The text of a position.
pub open spec fn fen_text(p: Position) -> Seq<char> {
    join(fen_fields(p), ' ')
}

/// The first field of `text` that is malformed, if any.
pub open spec fn fen_error(text: Seq<char>) -> Option<FenError> {
    let fields = split(text, ' ');
    if fields.len() != 6 {
        Some(FenError::FieldCount)
    } else if !grid_ok(fields[0]) {
        Some(FenError::Placement)
    } else if !color_ok(fields[1]) {
        Some(FenError::ActiveColor)
    } else if !castling_ok(fields[2]) {
        Some(FenError::Castling)
    } else if !en_passant_ok(fields[3]) {
        Some(FenError::EnPassant)
    } else if !counter_ok(fields[4], u32::MAX as nat) {
        Some(FenError::HalfmoveClock)
    } else if !counter_ok(fields[5], u64::MAX as nat) {
        Some(FenError::FullmoveNumber)
    } else {
        None
    }
}

/// The position that a well-formed `text` writes; a pawn promotes to a
/// queen.
pub open spec fn fen_position(text: Seq<char>) -> Position {
    let fields = split(text, ' ');
    Position {
        squares: grid_squares(fields[0]),
        active: color_of(fields[1]),
        castling: castling_of(fields[2]),
        en_passant: en_passant_of(fields[3]),
        halfmove: decimal_value(fields[4]),
        turn: decimal_value(fields[5]),
        promotion: PieceKind::Queen,
    }
}

/// Empty squares after a row count as pending empty squares.
pub proof fn lemma_row_text_pending(sq: Seq<Option<Piece>>, j: nat, k: nat)
    ensures
        row_text_before(sq + empties(k), j) == row_text_before(sq, j + k),
    decreases k,
{
    if k == 0 {
        assert(sq + empties(k) =~= sq);
    } else {
        let all = sq + empties(k);
        assert(all.last() is None);
        assert(all.drop_last() =~= sq + empties((k - 1) as nat));
        lemma_row_text_pending(sq, j + 1, (k - 1) as nat);
    }
}

/// A row text without two run lengths in a row is the text of the squares
/// it writes.
pub proof fn lemma_row_text_of_squares(t: Seq<char>)
    requires
        row_chars_ok(t),
    ensures
        row_text(row_squares(t)) == t,
        t.len() > 0 && !is_run(t.last()) ==> row_squares(t).len() > 0 && row_squares(
            t,
        ).last() is Some,
    decreases t.len(),
{
    if t.len() == 0 {
        assert(row_text(row_squares(t)) =~= t);
    } else {
        let init = t.drop_last();
        let c = t.last();
        assert(row_chars_ok(init)) by {
            assert forall|i: int| 0 <= i < init.len() implies {
                &&& is_run(#[trigger] init[i]) || letter_piece(init[i]) is Some
                &&& i > 0 && is_run(init[i]) ==> !is_run(init[i - 1])
            } by {
                assert(init[i] == t[i]);
                if i > 0 {
                    assert(init[i - 1] == t[i - 1]);
                }
            }
        }
        lemma_row_text_of_squares(init);
        let sq = row_squares(init);
        assert(is_run(t[t.len() - 1]) || letter_piece(t[t.len() - 1]) is Some);
        if is_run(c) {
            let d = run_length(c);
            lemma_row_text_pending(sq, 0, d);
            assert(digit_char(d) == c);
            if init.len() == 0 {
                assert(row_text_before(sq, d) =~= seq![c]);
            } else {
                assert(init.last() == t[t.len() - 2]);
                assert(!is_run(init.last()));
                assert(row_text_before(sq, d) =~= row_text_before(sq, 0) + run_text(d));
            }
            assert(init + seq![c] =~= t);
        } else {
            let piece = letter_piece(c)->Some_0;
            assert(piece_letter(piece) == c);
            let all = sq.push(Some(piece));
            assert(all.drop_last() =~= sq);
            assert(row_text_before(all, 0) =~= init.push(c));
            assert(init.push(c) =~= t);
        }
    }
}

/// The squares of a row text are at least as many as those of a prefix of
/// it.
pub proof fn lemma_row_squares_prefix(t: Seq<char>, k: int)
    requires
        0 <= k <= t.len(),
    ensures
        row_squares(t.take(k)).len() <= row_squares(t).len(),
    decreases t.len() - k,
{
    if k < t.len() {
        lemma_row_squares_prefix(t, k + 1);
        assert(t.take(k + 1).drop_last() =~= t.take(k));
    } else {
        assert(t.take(k) =~= t);
    }
}

/// The piece whose letter is `c`.
pub fn piece_of_letter(c: char) -> (r: Option<Piece>)
    ensures
        r == letter_piece(c),
{
    let color = if 'A' <= c && c <= 'Z' {
        Color::White
    } else {
        Color::Black
    };
    if c == 'P' || c == 'p' {
        Some(Piece { kind: PieceKind::Pawn, color })
    } else if c == 'N' || c == 'n' {
        Some(Piece { kind: PieceKind::Knight, color })
    } else if c == 'B' || c == 'b' {
        Some(Piece { kind: PieceKind::Bishop, color })
    } else if c == 'R' || c == 'r' {
        Some(Piece { kind: PieceKind::Rook, color })
    } else if c == 'Q' || c == 'q' {
        Some(Piece { kind: PieceKind::Queen, color })
    } else if c == 'K' || c == 'k' {
        Some(Piece { kind: PieceKind::King, color })
    } else {
        None
    }
}

/// The letter of a piece.
pub fn letter_of_piece(p: Piece) -> (c: char)
    ensures
        c == piece_letter(p),
{
    match p.color {
        Color::White => match p.kind {
            PieceKind::Pawn => 'P',
            PieceKind::Knight => 'N',
            PieceKind::Bishop => 'B',
            PieceKind::Rook => 'R',
            PieceKind::Queen => 'Q',
            PieceKind::King => 'K',
        },
        Color::Black => match p.kind {
            PieceKind::Pawn => 'p',
            PieceKind::Knight => 'n',
            PieceKind::Bishop => 'b',
            PieceKind::Rook => 'r',
            PieceKind::Queen => 'q',
            PieceKind::King => 'k',
        },
    }
}

/// Reads the text of a row: its eight squares where `t` is such a text,
/// nothing otherwise.
fn read_row(t: &Vec<char>) -> (r: Option<[Option<Piece>; 8]>)
    ensures
        r is Some <==> row_ok(t@),
        r matches Some(row) ==> row@ == row_squares(t@),
{
    let mut row: [Option<Piece>; 8] = [None, None, None, None, None, None, None, None];
    let mut n: usize = 0;
    let mut after_run: bool = false;
    let mut i: usize = 0;
    while i < t.len()
        invariant
            i <= t.len(),
            n <= 8,
            n == row_squares(t@.take(i as int)).len(),
            forall|j: int| 0 <= j < n ==> row@[j] == row_squares(t@.take(i as int))[j],
            forall|j: int| n <= j < 8 ==> row@[j] is None,
            row_chars_ok(t@.take(i as int)),
            after_run == (i > 0 && is_run(t@[i - 1])),
        decreases t.len() - i,
    {
        let c: char = t[i];
        let ghost before = t@.take(i as int);
        let ghost now = t@.take(i + 1);
        proof {
            assert(now.drop_last() =~= before);
            assert(now.last() == c);
            lemma_row_squares_prefix(t@, i + 1);
        }
        if '1' <= c && c <= '8' {
            let d: usize = ((c as u8) - ('0' as u8)) as usize;
            if after_run || n + d > 8 {
                proof {
                    if after_run {
                        assert(is_run(t@[i as int]) && is_run(t@[i - 1]));
                    }
                }
                return None;
            }
            n = n + d;
            after_run = true;
        } else {
            match piece_of_letter(c) {
                Some(p) => {
                    if n >= 8 {
                        return None;
                    }
                    row[n] = Some(p);
                    n = n + 1;
                    after_run = false;
                },
                None => {
                    proof {
                        assert(!(is_run(t@[i as int]) || letter_piece(t@[i as int]) is Some));
                    }
                    return None;
                },
            }
        }
        i += 1;
        proof {
            assert forall|k: int| 0 <= k < now.len() implies {
                &&& is_run(#[trigger] now[k]) || letter_piece(now[k]) is Some
                &&& k > 0 && is_run(now[k]) ==> !is_run(now[k - 1])
            } by {
                if k < before.len() {
                    assert(now[k] == before[k]);
                    if k > 0 {
                        assert(now[k - 1] == before[k - 1]);
                    }
                }
            }
        }
    }
    proof {
        assert(t@.take(t@.len() as int) =~= t@);
    }
    if n == 8 {
        assert(row@ =~= row_squares(t@));
        Some(row)
    } else {
        None
    }
}

/// Appends the text of a row to `out`.
fn push_row(out: &mut Vec<char>, row: &[Option<Piece>; 8])
    ensures
        final(out)@ == old(out)@ + row_text(row@),
{
    let ghost start = out@;
    let mut pending: u8 = 0;
    let mut i: usize = 0;
    while i < 8
        invariant
            i <= 8,
            pending <= i,
            forall|k: nat|
                start + #[trigger] row_text_before(row@.take(i as int), k) == out@ + run_text(
                    pending as nat + k,
                ),
        decreases 8 - i,
    {
        let ghost before = row@.take(i as int);
        let ghost now = row@.take(i + 1);
        let ghost prev = out@;
        proof {
            assert(now.drop_last() =~= before);
            assert(now.last() == row@[i as int]);
        }
        match row[i] {
            None => {
                pending = pending + 1;
                proof {
                    assert forall|k: nat|
                        start + #[trigger] row_text_before(now, k) == out@ + run_text(
                            pending as nat + k,
                        ) by {
                        assert(row_text_before(now, k) == row_text_before(before, k + 1));
                    }
                }
            },
            Some(p) => {
                if pending > 0 {
                    out.push((('0' as u8) + pending) as char);
                }
                out.push(letter_of_piece(p));
                proof {
                    assert(start + row_text_before(before, 0) == prev + run_text(pending as nat));
                    assert(out@ =~= (prev + run_text(pending as nat)).push(piece_letter(p)));
                    assert forall|k: nat|
                        start + #[trigger] row_text_before(now, k) == out@ + run_text(0 + k) by {
                        assert(row_text_before(now, k) == row_text_before(before, 0).push(
                            piece_letter(p),
                        ) + run_text(k));
                        assert(start + (row_text_before(before, 0).push(piece_letter(p))
                            + run_text(k)) =~= (start + row_text_before(before, 0)).push(
                            piece_letter(p),
                        ) + run_text(k));
                    }
                }
                pending = 0;
            },
        }
        i += 1;
    }
    proof {
        assert(row@.take(8) =~= row@);
        assert(start + row_text_before(row@, 0) == out@ + run_text(pending as nat + 0));
    }
    if pending > 0 {
        out.push((('0' as u8) + pending) as char);
    }
    proof {
        assert(out@ =~= start + row_text(row@));
    }
}

/// The rights read from the text of castling rights are those rights.
pub proof fn lemma_castling_of_text(r: CastlingRights)
    ensures
        castling_of(castling_text(r)) == r,
{
    let t = castling_text(r);
    let a = mark(r.white_kingside, 'K');
    let b = mark(r.white_queenside, 'Q');
    let c = mark(r.black_kingside, 'k');
    let d = mark(r.black_queenside, 'q');
    assert(marks(r) == a + b + c + d);
    assert forall|x: char| #[trigger] t.contains(x) implies (x == '-' && marks(r).len() == 0) || (x
        == 'K' && r.white_kingside) || (x == 'Q' && r.white_queenside) || (x == 'k'
        && r.black_kingside) || (x == 'q' && r.black_queenside) by {
        let i = choose|i: int| 0 <= i < t.len() && t[i] == x;
        if marks(r).len() != 0 {
            if i < a.len() {
            } else if i < a.len() + b.len() {
            } else if i < a.len() + b.len() + c.len() {
            } else {
            }
        }
    }
    if r.white_kingside {
        assert(t[0] == 'K');
    }
    if r.white_queenside {
        assert(t[a.len() as int] == 'Q');
    }
    if r.black_kingside {
        assert(t[(a.len() + b.len()) as int] == 'k');
    }
    if r.black_queenside {
        assert(t[(a.len() + b.len() + c.len()) as int] == 'q');
    }
}

/// A text of castling rights is the text of the rights read from it.
pub proof fn lemma_castling_text_of(t: Seq<char>)
    requires
        castling_ok(t),
    ensures
        castling_text(castling_of(t)) == t,
{
    let r = choose|r: CastlingRights| t == #[trigger] castling_text(r);
    lemma_castling_of_text(r);
}

/// Whether `c` occurs in `t`.
fn has_char(t: &Vec<char>, c: char) -> (r: bool)
    ensures
        r == t@.contains(c),
{
    let mut i: usize = 0;
    while i < t.len()
        invariant
            i <= t.len(),
            forall|j: int| 0 <= j < i ==> t@[j] != c,
        decreases t.len() - i,
    {
        if t[i] == c {
            return true;
        }
        i += 1;
    }
    false
}

/// Whether two texts are the same.
fn same_chars(a: &Vec<char>, b: &Vec<char>) -> (r: bool)
    ensures
        r == (a@ == b@),
{
    if a.len() != b.len() {
        return false;
    }
    let mut i: usize = 0;
    while i < a.len()
        invariant
            i <= a.len(),
            a.len() == b.len(),
            forall|j: int| 0 <= j < i ==> a@[j] == b@[j],
        decreases a.len() - i,
    {
        if a[i] != b[i] {
            return false;
        }
        i += 1;
    }
    assert(a@ =~= b@);
    true
}

/// The text of castling rights.
fn castling_chars(r: CastlingRights) -> (t: Vec<char>)
    ensures
        t@ == castling_text(r),
{
    let mut t: Vec<char> = Vec::new();
    if r.white_kingside {
        t.push('K');
    }
    if r.white_queenside {
        t.push('Q');
    }
    if r.black_kingside {
        t.push('k');
    }
    if r.black_queenside {
        t.push('q');
    }
    assert(t@ =~= marks(r));
    if t.len() == 0 {
        t.push('-');
    }
    assert(t@ =~= castling_text(r));
    t
}

/// Reads the text of castling rights: the rights where `t` is such a text,
/// nothing otherwise.
fn read_castling(t: &Vec<char>) -> (r: Option<CastlingRights>)
    ensures
        r is Some <==> castling_ok(t@),
        r matches Some(rights) ==> rights == castling_of(t@),
{
    let rights = CastlingRights {
        white_kingside: has_char(t, 'K'),
        white_queenside: has_char(t, 'Q'),
        black_kingside: has_char(t, 'k'),
        black_queenside: has_char(t, 'q'),
    };
    let canonical = castling_chars(rights);
    if same_chars(t, &canonical) {
        assert(t@ == castling_text(rights));
        Some(rights)
    } else {
        proof {
            if castling_ok(t@) {
                lemma_castling_text_of(t@);
            }
        }
        None
    }
}

/// Reads the text of a side.
fn read_color(t: &Vec<char>) -> (r: Option<Color>)
    ensures
        r is Some <==> color_ok(t@),
        r matches Some(c) ==> c == color_of(t@),
{
    if t.len() != 1 {
        assert(seq!['w'].len() == 1 && seq!['b'].len() == 1);
        return None;
    }
    let c: char = t[0];
    if c == 'w' {
        assert(t@ =~= seq!['w']);
        assert(seq!['w'][0] != seq!['b'][0]);
        Some(Color::White)
    } else if c == 'b' {
        assert(t@ =~= seq!['b']);
        Some(Color::Black)
    } else {
        assert(seq!['w'][0] == 'w' && seq!['b'][0] == 'b');
        None
    }
}

/// Whether `t` is a single `-`.
fn is_dash(t: &Vec<char>) -> (r: bool)
    ensures
        r == (t@ == seq!['-']),
{
    if t.len() == 1 && t[0] == '-' {
        assert(t@ =~= seq!['-']);
        true
    } else {
        assert(seq!['-'].len() == 1 && seq!['-'][0] == '-');
        false
    }
}

/// Reads the text of an en-passant target: `Some` of the target, which
/// may be none, where `t` is such a text, nothing otherwise.
fn read_en_passant(t: &Vec<char>) -> (r: Option<Option<Coord>>)
    ensures
        r is Some <==> en_passant_ok(t@),
        r matches Some(e) ==> e == en_passant_of(t@) && (e matches Some(c) ==> c.wf()),
{
    if is_dash(t) {
        assert(seq!['-'].len() == 1);
        return Some(None);
    }
    match coord_of_chars(t) {
        Ok(c) => Some(Some(c)),
        Err(_) => None,
    }
}

/// Reads the text of a grid: the grid where `t` is such a text, nothing
/// otherwise.
fn read_grid(t: &Vec<char>) -> (r: Option<[[Option<Piece>; 8]; 8]>)
    ensures
        r is Some <==> grid_ok(t@),
        r matches Some(grid) ==> forall|k: int|
            0 <= k < 8 ==> (#[trigger] grid@[k])@ == grid_squares(t@)[k],
{
    let rows = split_chars(t, '/');
    if rows.len() != 8 {
        return None;
    }
    let blank: [Option<Piece>; 8] = [None, None, None, None, None, None, None, None];
    let mut grid: [[Option<Piece>; 8]; 8] = [blank, blank, blank, blank, blank, blank, blank, blank];
    let mut k: usize = 0;
    while k < 8
        invariant
            k <= 8,
            rows@.len() == 8,
            views_are(rows@, split(t@, '/')),
            forall|j: int| 0 <= j < k ==> row_ok(#[trigger] split(t@, '/')[j]),
            forall|j: int| 0 <= j < k ==> (#[trigger] grid@[j])@ == row_squares(split(t@, '/')[j]),
        decreases 8 - k,
    {
        match read_row(&rows[k]) {
            Some(row) => {
                grid[k] = row;
            },
            None => {
                assert(!row_ok(split(t@, '/')[k as int]));
                return None;
            },
        }
        k += 1;
    }
    Some(grid)
}

/// The text of a grid is the text of the grid it writes.
pub proof fn lemma_grid_text_of_squares(t: Seq<char>)
    requires
        grid_ok(t),
    ensures
        grid_text(grid_squares(t)) == t,
{
    let rows = split(t, '/');
    let again = Seq::new(8, |r: int| row_text(grid_squares(t)[r]));
    assert forall|r: int| 0 <= r < 8 implies again[r] == rows[r] by {
        assert(row_ok(rows[r]));
        lemma_row_text_of_squares(rows[r]);
    }
    assert(again =~= rows);
    lemma_join_split(t, '/');
}

/// Writing the position that a well-formed text was read as gives the text
/// back.
pub proof fn lemma_fen_round_trip(text: Seq<char>)
    requires
        fen_error(text) is None,
    ensures
        fen_text(fen_position(text)) == text,
{
    let fields = split(text, ' ');
    let p = fen_position(text);
    let again = fen_fields(p);
    lemma_grid_text_of_squares(fields[0]);
    assert(again[1] == fields[1]);
    lemma_castling_text_of(fields[2]);
    assert(again[3] == fields[3]) by {
        if fields[3] == seq!['-'] {
            assert(seq!['-'].len() == 1);
        } else {
            lemma_read_then_name(fields[3]);
        }
    }
    lemma_decimal_text_of_value(fields[4]);
    lemma_decimal_text_of_value(fields[5]);
    assert(again =~= fields);
    lemma_join_split(text, ' ');
}

/// The text of at most eight squares is a row text that writes those
/// squares, and holds neither `/` nor a space.
pub proof fn lemma_row_squares_of_text(sq: Seq<Option<Piece>>, pending: nat)
    requires
        sq.len() + pending <= 8,
    ensures
        row_chars_ok(row_text_before(sq, pending)),
        row_squares(row_text_before(sq, pending)) == sq + empties(pending),
        free_of(row_text_before(sq, pending), '/'),
        free_of(row_text_before(sq, pending), ' '),
    decreases sq.len(),
{
    let t = row_text_before(sq, pending);
    if sq.len() == 0 {
        if pending > 0 {
            assert(t.drop_last() =~= Seq::<char>::empty());
            assert(is_run(t.last()) && run_length(t.last()) == pending);
            assert(row_squares(t.drop_last()) =~= Seq::<Option<Piece>>::empty());
        }
        assert(row_squares(t) =~= sq + empties(pending));
    } else {
        let init = sq.drop_last();
        match sq.last() {
            None => {
                lemma_row_squares_of_text(init, pending + 1);
                assert(init + empties(pending + 1) =~= sq + empties(pending));
            },
            Some(p) => {
                lemma_row_squares_of_text(init, 0);
                let u = row_text_before(init, 0);
                let c = piece_letter(p);
                let v = u.push(c);
                assert(letter_piece(c) == Some(p) && !is_run(c));
                assert(v.drop_last() =~= u);
                assert(init + empties(0) =~= init);
                assert(row_squares(v) =~= sq);
                assert(row_chars_ok(v)) by {
                    assert forall|i: int| 0 <= i < v.len() implies {
                        &&& is_run(#[trigger] v[i]) || letter_piece(v[i]) is Some
                        &&& i > 0 && is_run(v[i]) ==> !is_run(v[i - 1])
                    } by {
                        if i < u.len() {
                            assert(v[i] == u[i]);
                            if i > 0 {
                                assert(v[i - 1] == u[i - 1]);
                            }
                        }
                    }
                }
                assert forall|i: int| 0 <= i < v.len() implies v[i] != '/' && v[i] != ' ' by {
                    if i < u.len() {
                        assert(v[i] == u[i]);
                    }
                }
                if pending == 0 {
                    assert(t =~= v);
                    assert(sq + empties(pending) =~= sq);
                } else {
                    let d = digit_char(pending);
                    assert(t =~= v.push(d));
                    assert(is_run(d) && run_length(d) == pending);
                    assert(t.drop_last() =~= v);
                    assert(row_chars_ok(t)) by {
                        assert forall|i: int| 0 <= i < t.len() implies {
                            &&& is_run(#[trigger] t[i]) || letter_piece(t[i]) is Some
                            &&& i > 0 && is_run(t[i]) ==> !is_run(t[i - 1])
                        } by {
                            if i < v.len() {
                                assert(t[i] == v[i]);
                                if i > 0 {
                                    assert(t[i - 1] == v[i - 1]);
                                }
                            } else {
                                assert(t[i - 1] == c);
                            }
                        }
                    }
                    assert forall|i: int| 0 <= i < t.len() implies t[i] != '/' && t[i] != ' ' by {
                        if i < v.len() {
                            assert(t[i] == v[i]);
                        }
                    }
                }
            },
        }
    }
}

/// The text of a grid of eight rows of eight squares is a grid text that
/// writes that grid, and holds no space.
pub proof fn lemma_grid_squares_of_text(squares: Seq<Seq<Option<Piece>>>)
    requires
        squares.len() == 8,
        forall|r: int| 0 <= r < 8 ==> (#[trigger] squares[r]).len() == 8,
    ensures
        grid_ok(grid_text(squares)),
        grid_squares(grid_text(squares)) == squares,
        free_of(grid_text(squares), ' '),
{
    let rows = Seq::new(8, |r: int| row_text(squares[r]));
    assert forall|r: int| 0 <= r < 8 implies free_of(#[trigger] rows[r], '/') && free_of(
        rows[r],
        ' ',
    ) && row_ok(rows[r]) && row_squares(rows[r]) == squares[r] by {
        lemma_row_squares_of_text(squares[r], 0);
        assert(squares[r] + empties(0) =~= squares[r]);
    }
    lemma_split_join(rows, '/');
    lemma_join_free_of(rows, '/', ' ');
    assert(grid_squares(grid_text(squares)) =~= squares);
}

/// The text of a well-formed position whose counters fit is well formed,
/// and reads back as that position with the queen as promotion choice.
pub proof fn lemma_fen_read_back(p: Position)
    requires
        p.wf(),
        p.halfmove <= u32::MAX,
        p.turn <= u64::MAX,
    ensures
        fen_error(fen_text(p)) is None,
        fen_position(fen_text(p)) == (Position { promotion: PieceKind::Queen, ..p }),
{
    let fields = fen_fields(p);
    lemma_grid_squares_of_text(p.squares);
    lemma_castling_of_text(p.castling);
    lemma_decimal_value_of_text(p.halfmove);
    lemma_decimal_value_of_text(p.turn);
    lemma_decimal_free_of(p.halfmove, ' ');
    lemma_decimal_free_of(p.turn, ' ');
    assert(seq!['w'][0] == 'w' && seq!['b'][0] == 'b' && seq!['-'][0] == '-');
    assert(seq!['w'].len() == 1 && seq!['b'].len() == 1 && seq!['-'].len() == 1);
    assert(free_of(fields[1], ' '));
    assert(free_of(fields[2], ' ')) by {
        let t = castling_text(p.castling);
        let a = mark(p.castling.white_kingside, 'K');
        let b = mark(p.castling.white_queenside, 'Q');
        let c = mark(p.castling.black_kingside, 'k');
        let d = mark(p.castling.black_queenside, 'q');
        assert(marks(p.castling) == a + b + c + d);
        assert forall|i: int| 0 <= i < t.len() implies #[trigger] t[i] != ' ' by {
            if marks(p.castling).len() != 0 {
                if i < a.len() {
                } else if i < a.len() + b.len() {
                } else if i < a.len() + b.len() + c.len() {
                } else {
                }
            }
        }
    }
    assert(en_passant_ok(fields[3]) && en_passant_of(fields[3]) == p.en_passant && free_of(
        fields[3],
        ' ',
    )) by {
        match p.en_passant {
            Some(c) => {
                lemma_name_then_read(c);
            },
            None => {},
        }
    }
    assert(color_ok(fields[1]) && color_of(fields[1]) == p.active);
    assert(castling_ok(fields[2]));
    lemma_split_join(fields, ' ');
    assert(fen_position(fen_text(p)).squares == p.squares);
}

/// The text of a well-formed board is well formed, and reads back as that
/// board with the queen as promotion choice.
pub proof fn lemma_board_text_reads_back(board: Board)
    requires
        board.wf(),
    ensures
        fen_error(fen_text(board@)) is None,
        fen_position(fen_text(board@)) == (Position { promotion: PieceKind::Queen, ..board@ }),
{
    board.lemma_view_wf();
    lemma_fen_read_back(board@);
}

/// Reads a position text. A pawn of the board read promotes to a queen.
pub fn parse_fen(fen: &str) -> (r: Result<Board, FenError>)
    ensures
        match r {
            Ok(board) => fen_error(fen@) is None && board@ == fen_position(fen@) && board.wf(),
            Err(e) => fen_error(fen@) == Some(e),
        },
{
    let text = chars_of(fen);
    let fields = split_chars(&text, ' ');
    if fields.len() != 6 {
        return Err(FenError::FieldCount);
    }
    let ghost parts = split(fen@, ' ');
    assert(fields@[0]@ == parts[0] && fields@[1]@ == parts[1] && fields@[2]@ == parts[2]
        && fields@[3]@ == parts[3] && fields@[4]@ == parts[4] && fields@[5]@ == parts[5]);
    let board_state = match read_grid(&fields[0]) {
        Some(grid) => grid,
        None => {
            return Err(FenError::Placement);
        },
    };
    let active_player = match read_color(&fields[1]) {
        Some(c) => c,
        None => {
            return Err(FenError::ActiveColor);
        },
    };
    let castling_availability = match read_castling(&fields[2]) {
        Some(r) => r,
        None => {
            return Err(FenError::Castling);
        },
    };
    let en_passant_square = match read_en_passant(&fields[3]) {
        Some(e) => e,
        None => {
            return Err(FenError::EnPassant);
        },
    };
    let halfmove_counter: u32 = match read_decimal(&fields[4], 0xffff_ffff) {
        Some(n) => n as u32,
        None => {
            return Err(FenError::HalfmoveClock);
        },
    };
    let turn_counter: u64 = match read_decimal(&fields[5], u64::MAX) {
        Some(n) => n,
        None => {
            return Err(FenError::FullmoveNumber);
        },
    };
    let board = Board {
        board_state,
        active_player,
        castling_availability,
        en_passant_square,
        halfmove_counter,
        turn_counter,
        promotion_selection: PieceKind::Queen,
    };
    proof {
        let p = fen_position(fen@);
        assert forall|k: int| 0 <= k < 8 implies #[trigger] board@.squares[k] == p.squares[k] by {
            assert(board_state@[k]@ == grid_squares(parts[0])[k]);
        }
        assert(board@.squares =~= p.squares);
    }
    Ok(board)
}

/// The text of a board as a list of characters.
fn fen_chars(board: &Board) -> (out: Vec<char>)
    requires
        board.wf(),
    ensures
        out@ == fen_text(board@),
{
    let mut out: Vec<char> = Vec::new();
    let ghost mut rows: Seq<Seq<char>> = Seq::empty();
    let mut k: usize = 0;
    while k < 8
        invariant
            k <= 8,
            rows.len() == k,
            forall|j: int| 0 <= j < k ==> #[trigger] rows[j] == row_text(board@.squares[j]),
            out@ == join(rows, '/'),
        decreases 8 - k,
    {
        if k > 0 {
            out.push('/');
        }
        let ghost before = out@;
        push_row(&mut out, &board.board_state[k]);
        proof {
            let row = row_text(board@.squares[k as int]);
            lemma_join_push(rows, row, '/');
            assert(out@ =~= join(rows.push(row), '/')) by {
                if k == 0 {
                    assert(rows =~= Seq::empty());
                    assert(join(rows, '/') =~= Seq::empty());
                }
            }
            rows = rows.push(row);
        }
        k += 1;
    }
    let ghost p = board@;
    let ghost mut fields: Seq<Seq<char>> = seq![grid_text(p.squares)];
    proof {
        assert(rows =~= Seq::new(8, |r: int| row_text(p.squares[r])));
        assert(join(fields, ' ') == fields[0]);
    }

    out.push(' ');
    match board.active_player {
        Color::White => {
            out.push('w');
        },
        Color::Black => {
            out.push('b');
        },
    }
    proof {
        lemma_join_push(fields, color_text(p.active), ' ');
        assert(out@ =~= join(fields.push(color_text(p.active)), ' '));
        fields = fields.push(color_text(p.active));
    }

    out.push(' ');
    let castling = castling_chars(board.castling_availability);
    push_all(&mut out, &castling);
    proof {
        lemma_join_push(fields, castling_text(p.castling), ' ');
        assert(out@ =~= join(fields.push(castling_text(p.castling)), ' '));
        fields = fields.push(castling_text(p.castling));
    }

    out.push(' ');
    match board.en_passant_square {
        Some(c) => {
            let name = chars_of_coord(c);
            push_all(&mut out, &name);
        },
        None => {
            out.push('-');
        },
    }
    proof {
        lemma_join_push(fields, en_passant_text(p.en_passant), ' ');
        assert(out@ =~= join(fields.push(en_passant_text(p.en_passant)), ' '));
        fields = fields.push(en_passant_text(p.en_passant));
    }

    out.push(' ');
    push_decimal(&mut out, board.halfmove_counter as u64);
    proof {
        lemma_join_push(fields, decimal_text(p.halfmove), ' ');
        assert(out@ =~= join(fields.push(decimal_text(p.halfmove)), ' '));
        fields = fields.push(decimal_text(p.halfmove));
    }

    out.push(' ');
    push_decimal(&mut out, board.turn_counter);
    proof {
        lemma_join_push(fields, decimal_text(p.turn), ' ');
        assert(out@ =~= join(fields.push(decimal_text(p.turn)), ' '));
        fields = fields.push(decimal_text(p.turn));
        assert(fields =~= fen_fields(p));
    }
    out
}

/// Writes the text of a board.
pub fn generate_fen(board: &Board) -> (fen: String)
    requires
        board.wf(),
    ensures
        fen@ == fen_text(board@),
{
    let out = fen_chars(board);
    string_of(&out)
}

} // verus!
