//! Pseudo-legal move generation: where a piece may go by its movement rule
//! alone, whether or not the move leaves its own king attacked.

use vstd::prelude::*;
use crate::types::{get_piece, is_enemy_piece, is_friendly_piece, on_board, Board, Color, Coord, Piece, PieceKind, Position};

verus! {

/// The absolute value of `d`.
pub open spec fn abs(d: int) -> int {
    if d < 0 {
        -d
    } else {
        d
    }
}

/// The sign of `d`: -1, 0 or 1.
pub open spec fn sign(d: int) -> int {
    if d < 0 {
        -1
    } else if d > 0 {
        1
    } else {
        0
    }
}

/// The number of king steps that a displacement of `(dr, df)` takes.
pub open spec fn dist(dr: int, df: int) -> int {
    if abs(dr) < abs(df) {
        abs(df)
    } else {
        abs(dr)
    }
}

/// The coordinate reached from `x` after `k` steps in direction `d`, where
/// only the sign of `d` counts.
pub open spec fn step(x: int, d: int, k: int) -> int {
    if d < 0 {
        x - k
    } else if d > 0 {
        x + k
    } else {
        x
    }
}

/// A displacement along a rank or a file.
pub open spec fn straight(dr: int, df: int) -> bool {
    (dr == 0) != (df == 0)
}

/// A displacement along a diagonal.
pub open spec fn diagonal(dr: int, df: int) -> bool {
    dr != 0 && abs(dr) == abs(df)
}

/// A displacement of one knight's jump.
pub open spec fn knight_jump(dr: int, df: int) -> bool {
    (abs(dr) == 1 && abs(df) == 2) || (abs(dr) == 2 && abs(df) == 1)
}

/// One of the eight directions, each component -1, 0 or 1.
pub open spec fn unit_dir(dr: int, df: int) -> bool {
    -1 <= dr <= 1 && -1 <= df <= 1 && (dr != 0 || df != 0)
}

/// Whether `t` lies on the ray that leaves `from` in direction `(dr, df)`.
pub open spec fn on_ray(from: Coord, t: Coord, dr: int, df: int) -> bool {
    &&& t.wf()
    &&& sign(t.rank - from.rank) == dr
    &&& sign(t.file - from.file) == df
    &&& (straight(t.rank - from.rank, t.file - from.file) || diagonal(
        t.rank - from.rank,
        t.file - from.file,
    ))
}

impl Position {
    /// Whether the square `k` steps from `(r, f)` in direction `(dr, df)` is
    /// empty.
    pub open spec fn ray_empty(self, r: int, f: int, dr: int, df: int, k: int) -> bool {
        self.empty(step(r, dr, k), step(f, df, k))
    }

    /// Whether every square strictly between `(r, f)` and `(tr, tf)`, which
    /// lie on one line, is empty.
    pub open spec fn clear_between(self, r: int, f: int, tr: int, tf: int) -> bool {
        forall|k: int|
            0 < k < dist(tr - r, tf - f) ==> #[trigger] self.ray_empty(
                r,
                f,
                sign(tr - r),
                sign(tf - f),
                k,
            )
    }

    /// Whether a sliding piece of `color` on `(r, f)` reaches `(tr, tf)` along
    /// their common line: nothing stands between, and no piece of its own
    /// side stands on the destination.
    pub open spec fn slides(self, r: int, f: int, tr: int, tf: int, color: Color) -> bool {
        !self.holds_color(tr, tf, color) && self.clear_between(r, f, tr, tf)
    }

    /// Whether `color` may castle kingside with its king on `(r, f)`: it
    /// holds the right, the king stands on its home square, and the squares
    /// between king and rook are empty.
    pub open spec fn may_castle_kingside(self, r: int, f: int, color: Color) -> bool {
        &&& self.castling.kingside(color)
        &&& r == color.home_rank()
        &&& f == 4
        &&& self.empty(r, 5)
        &&& self.empty(r, 6)
    }

    /// Whether `color` may castle queenside with its king on `(r, f)`.
    pub open spec fn may_castle_queenside(self, r: int, f: int, color: Color) -> bool {
        &&& self.castling.queenside(color)
        &&& r == color.home_rank()
        &&& f == 4
        &&& self.empty(r, 1)
        &&& self.empty(r, 2)
        &&& self.empty(r, 3)
    }

    /// Where a pawn of `color` on `(r, f)` may go: one step forward onto an
    /// empty square; two steps from its starting rank over an empty square
    /// onto an empty square; one step diagonally forward onto an enemy piece
    /// or onto the en-passant target.
    pub open spec fn pawn_reach(self, r: int, f: int, tr: int, tf: int, color: Color) -> bool {
        let d = color.forward();
        ||| tf == f && tr == r + d && self.empty(tr, tf)
        ||| tf == f && r == color.pawn_rank() && tr == r + 2 * d && self.empty(r + d, f)
            && self.empty(tr, tf)
        ||| abs(tf - f) == 1 && tr == r + d && self.holds_color(tr, tf, color.other())
        ||| abs(tf - f) == 1 && tr == r + d && (self.en_passant matches Some(e) && e.is(
            tr,
            tf,
        ))
    }

    /// Where a king of `color` on `(r, f)` may go: to an adjacent square not
    /// held by its own side, or two files towards a rook when it may castle.
    pub open spec fn king_reach(self, r: int, f: int, tr: int, tf: int, color: Color) -> bool {
        ||| dist(tr - r, tf - f) == 1 && !self.holds_color(tr, tf, color)
        ||| tr == r && tf == 6 && self.may_castle_kingside(r, f, color)
        ||| tr == r && tf == 2 && self.may_castle_queenside(r, f, color)
    }

    /// Whether `piece`, standing on `(r, f)`, may go to `(tr, tf)` by its
    /// movement rule.
    pub open spec fn reach(self, piece: Piece, r: int, f: int, tr: int, tf: int) -> bool {
        on_board(tr, tf) && match piece.kind {
            PieceKind::Pawn => self.pawn_reach(r, f, tr, tf, piece.color),
            PieceKind::Knight => knight_jump(tr - r, tf - f) && !self.holds_color(
                tr,
                tf,
                piece.color,
            ),
            PieceKind::Bishop => diagonal(tr - r, tf - f) && self.slides(r, f, tr, tf, piece.color),
            PieceKind::Rook => straight(tr - r, tf - f) && self.slides(r, f, tr, tf, piece.color),
            PieceKind::Queen => (straight(tr - r, tf - f) || diagonal(tr - r, tf - f))
                && self.slides(r, f, tr, tf, piece.color),
            PieceKind::King => self.king_reach(r, f, tr, tf, piece.color),
        }
    }

    /// Whether the piece on `from` may go to `to` by its movement rule.
    pub open spec fn pseudo_legal(self, from: Coord, to: Coord) -> bool {
        &&& from.wf()
        &&& to.wf()
        &&& self.at(from) matches Some(p) && self.reach(
            p,
            from.rank as int,
            from.file as int,
            to.rank as int,
            to.file as int,
        )
    }
}

/// Appends a square that the list does not hold yet.
pub(crate) fn push_new(moves: &mut Vec<Coord>, c: Coord)
    requires
        old(moves)@.no_duplicates(),
        !old(moves)@.contains(c),
    ensures
        final(moves)@ == old(moves)@.push(c),
        final(moves)@.no_duplicates(),
        forall|t: Coord| #[trigger] final(moves)@.contains(t) <==> old(moves)@.contains(t) || t == c,
{
    moves.push(c);
    proof {
        let before = old(moves)@;
        let after = moves@;
        assert forall|t: Coord| after.contains(t) <==> before.contains(t) || t == c by {
            if before.contains(t) {
                let i = choose|i: int| 0 <= i < before.len() && before[i] == t;
                assert(after[i] == t);
            }
            if t == c {
                assert(after[before.len() as int] == c);
            }
        }
    }
}

impl Board {
    /// Adds to `moves` the square one jump of `(dr, df)` from `from`, if it
    /// lies on the board and holds no piece of `color`.
    fn try_jump(&self, from: &Coord, dr: i8, df: i8, color: Color, moves: &mut Vec<Coord>)
        requires
            from.wf(),
            -2 <= dr <= 2,
            -2 <= df <= 2,
            old(moves)@.no_duplicates(),
            forall|t: Coord|
                #[trigger] old(moves)@.contains(t) ==> !t.is(from.rank + dr, from.file + df),
        ensures
            final(moves)@.no_duplicates(),
            forall|t: Coord|
                #[trigger] final(moves)@.contains(t) <==> old(moves)@.contains(t) || (t.is(
                    from.rank + dr,
                    from.file + df,
                ) && t.wf() && !self@.holds_color(t.rank as int, t.file as int, color)),
    {
        let nr: i8 = from.rank as i8 + dr;
        let nf: i8 = from.file as i8 + df;
        if 0 <= nr && nr < 8 && 0 <= nf && nf < 8 {
            let c = Coord { rank: nr as u8, file: nf as u8 };
            if !is_friendly_piece(color, get_piece(self, &c)) {
                push_new(moves, c);
            }
        }
    }

    /// Adds to `moves` the squares that a sliding piece of `color` reaches
    /// from `from` in direction `(dr, df)`: each empty square up to the first
    /// piece, and that piece's square if it is an enemy.
    fn walk_ray(&self, from: &Coord, dr: i8, df: i8, color: Color, moves: &mut Vec<Coord>)
        requires
            from.wf(),
            unit_dir(dr as int, df as int),
            old(moves)@.no_duplicates(),
            forall|t: Coord|
                #[trigger] old(moves)@.contains(t) ==> !on_ray(*from, t, dr as int, df as int),
        ensures
            final(moves)@.no_duplicates(),
            forall|t: Coord|
                #[trigger] final(moves)@.contains(t) <==> old(moves)@.contains(t) || (on_ray(
                    *from,
                    t,
                    dr as int,
                    df as int,
                ) && self@.slides(
                    from.rank as int,
                    from.file as int,
                    t.rank as int,
                    t.file as int,
                    color,
                )),
    {
        let ghost r = from.rank as int;
        let ghost f = from.file as int;
        let ghost before = moves@;
        let ghost reached: int = 0;
        let mut cr: i8 = from.rank as i8;
        let mut cf: i8 = from.file as i8;
        let mut k: i8 = 1;
        let mut open: bool = true;
        while open
            invariant
                from.wf(),
                r == from.rank,
                f == from.file,
                unit_dir(dr as int, df as int),
                before == old(moves)@,
                forall|t: Coord|
                    #[trigger] before.contains(t) ==> !on_ray(*from, t, dr as int, df as int),
                1 <= k <= 8,
                reached == k - 1 || (!open && reached == k),
                open ==> cr == step(r, dr as int, k - 1) && cf == step(f, df as int, k - 1),
                open ==> 0 <= cr < 8 && 0 <= cf < 8,
                moves@.no_duplicates(),
                forall|j: int| 0 < j < k ==> #[trigger] self@.ray_empty(r, f, dr as int, df as int, j),
                forall|t: Coord|
                    #[trigger] moves@.contains(t) <==> before.contains(t) || (on_ray(
                        *from,
                        t,
                        dr as int,
                        df as int,
                    ) && dist(t.rank - r, t.file - f) <= reached),
                forall|t: Coord|
                    #[trigger] on_ray(*from, t, dr as int, df as int) && dist(
                        t.rank - r,
                        t.file - f,
                    ) <= reached ==> self@.slides(r, f, t.rank as int, t.file as int, color),
                !open ==> forall|t: Coord|
                    #[trigger] on_ray(*from, t, dr as int, df as int) && dist(
                        t.rank - r,
                        t.file - f,
                    ) > reached ==> !self@.slides(r, f, t.rank as int, t.file as int, color),
            decreases 9 - k + (if open { 1int } else { 0int }),
        {
            let nr: i8 = cr + dr;
            let nf: i8 = cf + df;
            if !(0 <= nr && nr < 8 && 0 <= nf && nf < 8) {
                open = false;
            } else {
                let c = Coord { rank: nr as u8, file: nf as u8 };
                let content = get_piece(self, &c);
                assert(on_ray(*from, c, dr as int, df as int));
                assert(dist(c.rank - r, c.file - f) == k);
                assert(self@.ray_empty(r, f, dr as int, df as int, k as int) == self@.empty(
                    nr as int,
                    nf as int,
                ));
                if is_friendly_piece(color, content) {
                    open = false;
                } else {
                    push_new(moves, c);
                    if is_enemy_piece(color, content) {
                        open = false;
                        proof {
                            reached = k as int;
                        }
                    } else {
                        cr = nr;
                        cf = nf;
                        k = k + 1;
                        proof {
                            reached = k - 1;
                        }
                    }
                }
            }
        }
    }
}

impl Board {
    /// Whether the square at `c` is empty.
    fn is_empty_at(&self, c: &Coord) -> (r: bool)
        requires
            c.wf(),
        ensures
            r == self@.empty(c.rank as int, c.file as int),
    {
        match get_piece(self, c) {
            Some(_) => false,
            None => true,
        }
    }

    /// Whether the en-passant target is the square at `c`.
    fn is_en_passant_target(&self, c: &Coord) -> (r: bool)
        ensures
            r == (self@.en_passant matches Some(e) && e.is(c.rank as int, c.file as int)),
    {
        match self.en_passant_square {
            Some(e) => e.rank == c.rank && e.file == c.file,
            None => false,
        }
    }

    /// Adds to `moves` the square diagonally ahead of a pawn of `color`, on
    /// the side `df`, if the pawn may capture there.
    fn try_pawn_capture(&self, from: &Coord, d: i8, df: i8, color: Color, moves: &mut Vec<Coord>)
        requires
            from.wf(),
            d == color.forward(),
            df == 1 || df == -1,
            old(moves)@.no_duplicates(),
            forall|t: Coord|
                #[trigger] old(moves)@.contains(t) ==> !t.is(from.rank + d, from.file + df),
        ensures
            final(moves)@.no_duplicates(),
            forall|t: Coord|
                #[trigger] final(moves)@.contains(t) <==> old(moves)@.contains(t) || (t.is(
                    from.rank + d,
                    from.file + df,
                ) && t.wf() && (self@.holds_color(t.rank as int, t.file as int, color.other()) || (
                self@.en_passant matches Some(e) && e.is(t.rank as int, t.file as int)))),
    {
        let nr: i8 = from.rank as i8 + d;
        let nf: i8 = from.file as i8 + df;
        if 0 <= nr && nr < 8 && 0 <= nf && nf < 8 {
            let c = Coord { rank: nr as u8, file: nf as u8 };
            if is_enemy_piece(color, get_piece(self, &c)) || self.is_en_passant_target(&c) {
                push_new(moves, c);
            }
        }
    }

    /// The squares that a pawn of `color` on `from` may go to.
    fn pawn_moves(&self, from: &Coord, color: Color) -> (moves: Vec<Coord>)
        requires
            from.wf(),
        ensures
            moves@.no_duplicates(),
            forall|t: Coord|
                #[trigger] moves@.contains(t) <==> t.wf() && self@.pawn_reach(
                    from.rank as int,
                    from.file as int,
                    t.rank as int,
                    t.file as int,
                    color,
                ),
    {
        let mut moves: Vec<Coord> = Vec::new();
        let d: i8 = match color {
            Color::White => -1,
            Color::Black => 1,
        };
        let start: u8 = match color {
            Color::White => 6,
            Color::Black => 1,
        };
        let nr: i8 = from.rank as i8 + d;
        if 0 <= nr && nr < 8 {
            let ahead = Coord { rank: nr as u8, file: from.file };
            if self.is_empty_at(&ahead) {
                push_new(&mut moves, ahead);
                if from.rank == start {
                    let far = Coord { rank: (nr + d) as u8, file: from.file };
                    if self.is_empty_at(&far) {
                        push_new(&mut moves, far);
                    }
                }
            }
        }
        self.try_pawn_capture(from, d, -1, color, &mut moves);
        self.try_pawn_capture(from, d, 1, color, &mut moves);
        moves
    }

    /// The squares that a knight of `color` on `from` may go to.
    fn knight_moves(&self, from: &Coord, color: Color) -> (moves: Vec<Coord>)
        requires
            from.wf(),
        ensures
            moves@.no_duplicates(),
            forall|t: Coord|
                #[trigger] moves@.contains(t) <==> t.wf() && knight_jump(
                    t.rank - from.rank,
                    t.file - from.file,
                ) && !self@.holds_color(t.rank as int, t.file as int, color),
    {
        let mut moves: Vec<Coord> = Vec::new();
        self.try_jump(from, 2, 1, color, &mut moves);
        self.try_jump(from, 2, -1, color, &mut moves);
        self.try_jump(from, -2, 1, color, &mut moves);
        self.try_jump(from, -2, -1, color, &mut moves);
        self.try_jump(from, 1, 2, color, &mut moves);
        self.try_jump(from, -1, 2, color, &mut moves);
        self.try_jump(from, 1, -2, color, &mut moves);
        self.try_jump(from, -1, -2, color, &mut moves);
        moves
    }

    /// The squares that a king of `color` on `from` may go to, castling
    /// included.
    fn king_moves(&self, from: &Coord, color: Color) -> (moves: Vec<Coord>)
        requires
            from.wf(),
        ensures
            moves@.no_duplicates(),
            forall|t: Coord|
                #[trigger] moves@.contains(t) <==> t.wf() && self@.king_reach(
                    from.rank as int,
                    from.file as int,
                    t.rank as int,
                    t.file as int,
                    color,
                ),
    {
        let mut moves: Vec<Coord> = Vec::new();
        self.try_jump(from, 1, 0, color, &mut moves);
        self.try_jump(from, -1, 0, color, &mut moves);
        self.try_jump(from, 0, 1, color, &mut moves);
        self.try_jump(from, 0, -1, color, &mut moves);
        self.try_jump(from, 1, 1, color, &mut moves);
        self.try_jump(from, 1, -1, color, &mut moves);
        self.try_jump(from, -1, 1, color, &mut moves);
        self.try_jump(from, -1, -1, color, &mut moves);
        let home: u8 = match color {
            Color::White => 7,
            Color::Black => 0,
        };
        if from.rank == home && from.file == 4 {
            let kingside: bool = match color {
                Color::White => self.castling_availability.white_kingside,
                Color::Black => self.castling_availability.black_kingside,
            };
            let queenside: bool = match color {
                Color::White => self.castling_availability.white_queenside,
                Color::Black => self.castling_availability.black_queenside,
            };
            if kingside && self.is_empty_at(&Coord { rank: home, file: 5 }) && self.is_empty_at(
                &Coord { rank: home, file: 6 },
            ) {
                push_new(&mut moves, Coord { rank: home, file: 6 });
            }
            if queenside && self.is_empty_at(&Coord { rank: home, file: 1 }) && self.is_empty_at(
                &Coord { rank: home, file: 2 },
            ) && self.is_empty_at(&Coord { rank: home, file: 3 }) {
                push_new(&mut moves, Coord { rank: home, file: 2 });
            }
        }
        moves
    }

    /// Adds to `moves` the squares that a sliding piece of `color` reaches
    /// from `from` along the four diagonals.
    fn diagonal_rays(&self, from: &Coord, color: Color, moves: &mut Vec<Coord>)
        requires
            from.wf(),
            old(moves)@.no_duplicates(),
            forall|t: Coord|
                #[trigger] old(moves)@.contains(t) ==> !diagonal(
                    t.rank - from.rank,
                    t.file - from.file,
                ),
        ensures
            final(moves)@.no_duplicates(),
            forall|t: Coord|
                #[trigger] final(moves)@.contains(t) <==> old(moves)@.contains(t) || (t.wf()
                    && diagonal(t.rank - from.rank, t.file - from.file) && self@.slides(
                    from.rank as int,
                    from.file as int,
                    t.rank as int,
                    t.file as int,
                    color,
                )),
    {
        self.walk_ray(from, 1, 1, color, moves);
        self.walk_ray(from, 1, -1, color, moves);
        self.walk_ray(from, -1, -1, color, moves);
        self.walk_ray(from, -1, 1, color, moves);
    }

    /// Adds to `moves` the squares that a sliding piece of `color` reaches
    /// from `from` along its rank and its file.
    fn straight_rays(&self, from: &Coord, color: Color, moves: &mut Vec<Coord>)
        requires
            from.wf(),
            old(moves)@.no_duplicates(),
            forall|t: Coord|
                #[trigger] old(moves)@.contains(t) ==> !straight(
                    t.rank - from.rank,
                    t.file - from.file,
                ),
        ensures
            final(moves)@.no_duplicates(),
            forall|t: Coord|
                #[trigger] final(moves)@.contains(t) <==> old(moves)@.contains(t) || (t.wf()
                    && straight(t.rank - from.rank, t.file - from.file) && self@.slides(
                    from.rank as int,
                    from.file as int,
                    t.rank as int,
                    t.file as int,
                    color,
                )),
    {
        self.walk_ray(from, 0, -1, color, moves);
        self.walk_ray(from, 0, 1, color, moves);
        self.walk_ray(from, -1, 0, color, moves);
        self.walk_ray(from, 1, 0, color, moves);
    }

    /// The squares that `piece`, standing on `coords`, may go to by its
    /// movement rule, each once. The board is not asked whether `piece`
    /// stands there, nor whether the move leaves its king attacked.
    pub fn get_piece_movements(&self, coords: &Coord, piece: &Piece) -> (moves: Vec<Coord>)
        requires
            coords.wf(),
        ensures
            moves@.no_duplicates(),
            forall|t: Coord|
                #[trigger] moves@.contains(t) <==> t.wf() && self@.reach(
                    *piece,
                    coords.rank as int,
                    coords.file as int,
                    t.rank as int,
                    t.file as int,
                ),
    {
        match piece.kind {
            PieceKind::Pawn => self.pawn_moves(coords, piece.color),
            PieceKind::Knight => self.knight_moves(coords, piece.color),
            PieceKind::Bishop => {
                let mut moves: Vec<Coord> = Vec::new();
                self.diagonal_rays(coords, piece.color, &mut moves);
                moves
            },
            PieceKind::Rook => {
                let mut moves: Vec<Coord> = Vec::new();
                self.straight_rays(coords, piece.color, &mut moves);
                moves
            },
            PieceKind::Queen => {
                let mut moves: Vec<Coord> = Vec::new();
                self.diagonal_rays(coords, piece.color, &mut moves);
                self.straight_rays(coords, piece.color, &mut moves);
                moves
            },
            PieceKind::King => self.king_moves(coords, piece.color),
        }
    }
}

} // verus!
