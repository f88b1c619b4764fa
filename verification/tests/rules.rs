use chess_engine::{
    check_for_checks, generate_fen, get_algebraic_notation, get_available_moves,
    get_available_moves_internal, get_board_coords, get_piece, parse_fen, player_is_in_check,
    Board, Color, Coord, FenError, Game, GameStatus, NotationError, Piece, PieceKind, PieceMoves,
};

fn board(fen: &str) -> Board {
    parse_fen(fen).unwrap()
}

fn game(fen: &str) -> Game {
    Game::new_from_fen(fen.to_string()).unwrap()
}

fn sq(name: &str) -> Coord {
    get_board_coords(name.to_string()).unwrap()
}

fn count(moves: &Vec<PieceMoves>) -> usize {
    moves.iter().map(|m| m.targets.len()).sum()
}

fn names(list: &Vec<Coord>) -> Vec<String> {
    let mut out: Vec<String> = list.iter().map(|c| get_algebraic_notation(*c)).collect();
    out.sort();
    out
}

fn targets_of(moves: &Vec<PieceMoves>, from: &str) -> Vec<String> {
    let from = sq(from);
    for m in moves {
        if m.source == from {
            return names(&m.targets);
        }
    }
    Vec::new()
}

fn piece_moves(fen: &str, from: &str) -> Vec<String> {
    let b = board(fen);
    let c = sq(from);
    let p = get_piece(&b, &c).unwrap();
    names(&b.get_piece_movements(&c, &p))
}

fn strings(list: &[&str]) -> Vec<String> {
    let mut out: Vec<String> = list.iter().map(|s| s.to_string()).collect();
    out.sort();
    out
}

fn piece(kind: PieceKind, color: Color) -> Option<Piece> {
    Some(Piece { kind, color })
}

#[test]
fn starting_position_has_twenty_moves_for_each_side() {
    let g = Game::new();
    let white = get_available_moves_internal(g.board, Color::White, false);
    let black = get_available_moves_internal(g.board, Color::Black, false);
    assert_eq!(count(&white), 20);
    assert_eq!(count(&black), 20);
    assert_eq!(white.len(), 10);
    assert_eq!(black.len(), 10);
    assert_eq!(g.game_status, GameStatus::InProgress);
    assert_eq!(g.checks, [false, false]);
}

#[test]
fn starting_position_is_the_standard_text() {
    let g = Game::new();
    assert_eq!(g.fen, "rnbqkbnr/pppppppp/8/8/8/8/PPPPPPPP/RNBQKBNR w KQkq - 0 1");
    let parsed = game("rnbqkbnr/pppppppp/8/8/8/8/PPPPPPPP/RNBQKBNR w KQkq - 0 1");
    assert_eq!(parsed, g);
    assert_eq!(g.board.promotion_selection, PieceKind::Queen);
}

#[test]
fn named_moves_of_the_king_pawn() {
    let g = Game::new();
    let moves = get_available_moves(g.board, Color::White, false);
    let e2 = moves.iter().find(|m| m.source == "e2").unwrap();
    assert_eq!(strings(&["e3", "e4"]), {
        let mut t = e2.targets.clone();
        t.sort();
        t
    });
    assert_eq!(moves.len(), 10);
}

#[test]
fn fools_mate_is_won_by_black() {
    let mut g = Game::new();
    assert!(g.make_move("f2".to_string(), "f3".to_string()));
    assert_eq!(g.game_status, GameStatus::InProgress);
    assert!(g.make_move("e7".to_string(), "e5".to_string()));
    assert!(g.make_move("g2".to_string(), "g4".to_string()));
    assert_eq!(g.game_status, GameStatus::InProgress);
    assert!(g.make_move("d8".to_string(), "h4".to_string()));
    assert_eq!(g.game_status, GameStatus::CheckmateBlackWins);
    assert_eq!(g.checks, [true, false]);
    assert_eq!(count(&get_available_moves_internal(g.board, Color::White, false)), 0);
}

#[test]
fn back_rank_mate_is_won_by_white() {
    let g = game("R5k1/5ppp/8/8/8/8/8/6K1 b - - 0 1");
    assert_eq!(g.game_status, GameStatus::CheckmateWhiteWins);
    assert_eq!(g.checks, [false, true]);
}

#[test]
fn stalemate_is_found_for_either_side() {
    let g = game("7k/5Q2/6K1/8/8/8/8/8 b - - 0 1");
    assert_eq!(g.game_status, GameStatus::Stalemate);
    assert_eq!(g.checks, [false, false]);
    let h = game("7K/5q2/6k1/8/8/8/8/8 w - - 0 1");
    assert_eq!(h.game_status, GameStatus::Stalemate);
}

#[test]
fn fifty_move_draw_comes_at_a_hundred_and_comes_first() {
    assert_eq!(game("4k3/8/8/8/8/8/8/4K3 w - - 100 80").game_status, GameStatus::DrawFiftyMove);
    assert_eq!(game("4k3/8/8/8/8/8/8/4K3 w - - 99 80").game_status, GameStatus::InProgress);
    assert_eq!(game("4k3/8/8/8/8/8/8/4K3 w - - 250 80").game_status, GameStatus::DrawFiftyMove);
    // a checkmate on the board does not override the draw
    assert_eq!(
        game("6k1/5p1p/8/6p1/2P1p1P1/4P2P/1r6/q1K5 w - - 100 47").game_status,
        GameStatus::DrawFiftyMove
    );
}

#[test]
fn fifty_move_draw_is_reached_by_a_move() {
    let mut g = game("4k3/8/8/8/8/8/8/4K2R w - - 99 80");
    assert_eq!(g.game_status, GameStatus::InProgress);
    assert!(g.make_move("h1".to_string(), "h2".to_string()));
    assert_eq!(g.board.halfmove_counter, 100);
    assert_eq!(g.game_status, GameStatus::DrawFiftyMove);
}

#[test]
fn en_passant_removes_the_pawn_that_advanced() {
    let mut g = game("4k3/6p1/8/pP1pP3/7P/8/8/4K3 w - d6 0 6");
    let moves = get_available_moves_internal(g.board, Color::White, false);
    assert_eq!(targets_of(&moves, "e5"), strings(&["d6", "e6"]));
    // the b5 pawn stands beside a5, but the target is d6
    assert_eq!(targets_of(&moves, "b5"), strings(&["b6"]));
    assert!(g.make_move("e5".to_string(), "d6".to_string()));
    assert_eq!(g.fen, "4k3/6p1/3P4/pP6/7P/8/8/4K3 b - - 0 6");
    assert_eq!(get_piece(&g.board, &sq("d5")), None);
    assert_eq!(get_piece(&g.board, &sq("d6")), piece(PieceKind::Pawn, Color::White));
    assert_eq!(get_piece(&g.board, &sq("e5")), None);
}

#[test]
fn double_push_offers_en_passant_to_the_neighbour() {
    let mut g = game("4k3/8/8/8/1p6/8/P7/4K3 w - - 3 1");
    assert!(g.make_move("a2".to_string(), "a4".to_string()));
    assert_eq!(g.fen, "4k3/8/8/8/Pp6/8/8/4K3 b - a3 0 1");
    assert_eq!(g.board.en_passant_square, Some(sq("a3")));
    let moves = get_available_moves_internal(g.board, Color::Black, false);
    assert_eq!(targets_of(&moves, "b4"), strings(&["a3", "b3"]));
    assert!(g.make_move("b4".to_string(), "a3".to_string()));
    assert_eq!(g.fen, "4k3/8/8/8/8/p7/8/4K3 w - - 0 2");
}

#[test]
fn en_passant_target_lasts_one_move() {
    let mut g = game("4k3/8/8/8/1p6/8/P7/4K3 w - - 0 1");
    assert!(g.make_move("a2".to_string(), "a4".to_string()));
    assert!(g.make_move("e8".to_string(), "e7".to_string()));
    assert_eq!(g.board.en_passant_square, None);
    assert!(g.make_move("e1".to_string(), "e2".to_string()));
    let moves = get_available_moves_internal(g.board, Color::Black, false);
    assert_eq!(targets_of(&moves, "b4"), strings(&["b3"]));
    // a single step sets no target
    assert!(g.make_move("b4".to_string(), "b3".to_string()));
    assert_eq!(g.board.en_passant_square, None);
}

#[test]
fn castling_moves_king_and_rook() {
    let start = "r3k2r/pppppppp/8/8/8/8/PPPPPPPP/R3K2R w KQkq - 0 1";
    let mut g = game(start);
    let moves = get_available_moves_internal(g.board, Color::White, false);
    assert_eq!(targets_of(&moves, "e1"), strings(&["c1", "d1", "f1", "g1"]));
    assert!(g.make_move("e1".to_string(), "c1".to_string()));
    assert_eq!(g.fen, "r3k2r/pppppppp/8/8/8/8/PPPPPPPP/2KR3R b kq - 1 1");
    assert!(g.make_move("e8".to_string(), "g8".to_string()));
    assert_eq!(g.fen, "r4rk1/pppppppp/8/8/8/8/PPPPPPPP/2KR3R w - - 2 2");
    assert_eq!(get_piece(&g.board, &sq("f8")), piece(PieceKind::Rook, Color::Black));
    assert_eq!(get_piece(&g.board, &sq("h8")), None);

    let mut h = game(start);
    assert!(h.make_move("e1".to_string(), "g1".to_string()));
    assert_eq!(h.fen, "r3k2r/pppppppp/8/8/8/8/PPPPPPPP/R4RK1 b kq - 1 1");
    assert!(h.make_move("e8".to_string(), "c8".to_string()));
    assert_eq!(h.fen, "2kr3r/pppppppp/8/8/8/8/PPPPPPPP/R4RK1 w - - 2 2");
}

#[test]
fn castling_rights_are_lost_and_stay_lost() {
    let mut g = game("r3k2r/8/8/8/8/8/8/R3K2R w KQkq - 0 1");
    assert!(g.make_move("a1".to_string(), "b1".to_string()));
    assert_eq!(g.fen, "r3k2r/8/8/8/8/8/8/1R2K2R b Kkq - 1 1");
    assert!(g.make_move("h8".to_string(), "h7".to_string()));
    assert_eq!(g.fen, "r3k3/7r/8/8/8/8/8/1R2K2R w Kq - 2 2");
    assert!(g.make_move("b1".to_string(), "a1".to_string()));
    assert!(g.make_move("h7".to_string(), "h8".to_string()));
    // the rooks are back, the rights are not
    assert_eq!(g.fen, "r3k2r/8/8/8/8/8/8/R3K2R w Kq - 4 3");
    let white = get_available_moves_internal(g.board, Color::White, false);
    assert_eq!(targets_of(&white, "e1"), strings(&["d1", "d2", "e2", "f1", "f2", "g1"]));
    assert!(g.make_move("e1".to_string(), "e2".to_string()));
    assert_eq!(g.board.castling_availability.white_kingside, false);
    assert!(g.make_move("e8".to_string(), "e7".to_string()));
    assert_eq!(g.fen, "r6r/4k3/8/8/8/8/4K3/R6R w - - 6 4");
}

#[test]
fn castling_needs_empty_squares_between() {
    let g = Game::new();
    let moves = get_available_moves_internal(g.board, Color::White, true);
    assert_eq!(targets_of(&moves, "e1"), strings(&[]));
    // b8 is occupied: Black may castle on the king's side only
    let b = board("rn2k2r/8/8/8/8/8/8/4K3 b kq - 0 1");
    let black = get_available_moves_internal(b, Color::Black, false);
    assert_eq!(targets_of(&black, "e8"), strings(&["d7", "d8", "e7", "f7", "f8", "g8"]));
    // without the right there is no castling
    let c = board("r3k2r/8/8/8/8/8/8/4K3 b - - 0 1");
    let none = get_available_moves_internal(c, Color::Black, false);
    assert_eq!(targets_of(&none, "e8"), strings(&["d7", "d8", "e7", "f7", "f8"]));
}

#[test]
fn castling_is_not_offered_in_check() {
    let b = board("4r3/8/8/8/8/8/8/R3K2R w KQ - 0 1");
    assert!(player_is_in_check(&b, Color::White));
    let raw = get_available_moves_internal(b, Color::White, true);
    assert_eq!(targets_of(&raw, "e1"), strings(&["c1", "d1", "d2", "e2", "f1", "f2", "g1"]));
    let legal = get_available_moves_internal(b, Color::White, false);
    assert_eq!(targets_of(&legal, "e1"), strings(&["d1", "d2", "f1", "f2"]));
}

#[test]
fn promotion_is_to_a_queen_unless_chosen_otherwise() {
    let start = "8/P7/8/8/8/8/7p/k6K w - - 0 1";
    let mut g = game(start);
    assert!(g.make_move("a7".to_string(), "a8".to_string()));
    assert_eq!(get_piece(&g.board, &sq("a8")), piece(PieceKind::Queen, Color::White));
    assert_eq!(g.fen, "Q7/8/8/8/8/8/7p/k6K b - - 0 1");

    let mut h = game(start);
    assert!(h.board.set_promotion('n'));
    assert!(h.make_move("a7".to_string(), "a8".to_string()));
    assert_eq!(get_piece(&h.board, &sq("a8")), piece(PieceKind::Knight, Color::White));
    assert!(h.make_move("a1".to_string(), "a2".to_string()));
    assert!(h.make_move("h1".to_string(), "h2".to_string()));
    assert_eq!(get_piece(&h.board, &sq("h2")), piece(PieceKind::King, Color::White));
}

#[test]
fn promotion_is_in_the_movers_color() {
    let mut g = game("r5k1/5p1p/p7/5Rp1/2P1p3/4P1PP/1p4NK/2q5 b - - 0 33");
    assert!(g.board.set_promotion('R'));
    assert!(g.make_move("b2".to_string(), "b1".to_string()));
    assert_eq!(get_piece(&g.board, &sq("b1")), piece(PieceKind::Rook, Color::Black));
    assert_eq!(g.fen, "r5k1/5p1p/p7/5Rp1/2P1p3/4P1PP/6NK/1rq5 w - - 0 34");
}

#[test]
fn promotion_choice_accepts_four_kinds_in_either_case() {
    let mut b = board("8/8/8/8/8/8/8/k6K w - - 0 1");
    assert_eq!(b.promotion_selection, PieceKind::Queen);
    assert!(b.set_promotion('b'));
    assert_eq!(b.promotion_selection, PieceKind::Bishop);
    assert!(b.set_promotion('N'));
    assert_eq!(b.promotion_selection, PieceKind::Knight);
    assert!(b.set_promotion('r'));
    assert_eq!(b.promotion_selection, PieceKind::Rook);
    assert!(!b.set_promotion('p'));
    assert!(!b.set_promotion('k'));
    assert!(!b.set_promotion('K'));
    assert!(!b.set_promotion('x'));
    assert!(!b.set_promotion('*'));
    assert_eq!(b.promotion_selection, PieceKind::Rook);
    assert!(b.set_promotion('Q'));
    assert_eq!(b.promotion_selection, PieceKind::Queen);
}

#[test]
fn rejected_promotion_choice_keeps_the_queen() {
    let mut g = game("r5k1/5p1p/p7/5Rp1/2P1p3/4P1PP/1p4NK/2q5 b - - 0 33");
    assert!(!g.board.set_promotion('p'));
    assert!(g.make_move("b2".to_string(), "b1".to_string()));
    assert_eq!(get_piece(&g.board, &sq("b1")), piece(PieceKind::Queen, Color::Black));
}

#[test]
fn illegal_move_leaves_the_game_as_it_was() {
    let mut g = Game::new();
    let before = g.clone();
    assert!(!g.make_move("e2".to_string(), "e5".to_string()));
    assert!(!g.make_move("e7".to_string(), "e5".to_string()));
    assert!(!g.make_move("e3".to_string(), "e4".to_string()));
    assert!(!g.make_move("e2".to_string(), "e2".to_string()));
    assert!(!g.make_move("z9".to_string(), "e4".to_string()));
    assert!(!g.make_move("e2".to_string(), "e".to_string()));
    assert!(!g.make_move("".to_string(), "".to_string()));
    assert_eq!(g, before);
}

#[test]
fn a_pinned_piece_may_not_leave_the_line() {
    let b = board("4r2k/8/8/8/8/8/4B3/4K3 w - - 0 1");
    let raw = get_available_moves_internal(b, Color::White, true);
    assert_eq!(targets_of(&raw, "e2").len(), 9);
    let legal = get_available_moves_internal(b, Color::White, false);
    assert_eq!(targets_of(&legal, "e2"), strings(&[]));
    assert!(legal.iter().all(|m| m.source != sq("e2")));
    assert_eq!(targets_of(&legal, "e1"), strings(&["d1", "d2", "f1", "f2"]));
}

#[test]
fn the_king_may_not_step_into_check() {
    let b = board("8/4r3/8/8/8/3K4/8/8 w - - 0 1");
    let legal = get_available_moves_internal(b, Color::White, false);
    assert_eq!(targets_of(&legal, "d3"), strings(&["c2", "c3", "c4", "d2", "d4"]));
    let raw = get_available_moves_internal(b, Color::White, true);
    assert_eq!(targets_of(&raw, "d3").len(), 8);
}

#[test]
fn no_legal_move_leaves_the_movers_king_attacked() {
    let fens = [
        "rnbqkbnr/pppppppp/8/8/8/8/PPPPPPPP/RNBQKBNR w KQkq - 0 1",
        "2k1r3/ppp2p1p/5p2/5P2/1P6/1n4P1/2R3BP/2K5 w - - 1 24",
        "r3k2r/pppppppp/8/8/8/8/PPPPPPPP/R3K2R w KQkq - 0 1",
        "4k3/6p1/8/pP1pP3/7P/8/8/4K3 w - d6 0 6",
        "r5k1/5p1p/p7/5Rp1/2P1p3/4P1PP/1p4NK/2q5 b - - 0 33",
        "4r3/8/8/8/8/8/8/R3K2R w KQ - 0 1",
    ];
    for fen in fens {
        let b = board(fen);
        for color in [Color::White, Color::Black] {
            for m in get_available_moves_internal(b, color, false) {
                for t in m.targets {
                    let mut after = b;
                    after.move_piece(m.source, t);
                    assert!(!player_is_in_check(&after, color));
                }
            }
        }
    }
}

#[test]
fn check_in_the_middle_game_leaves_three_answers() {
    let b = board("2k1r3/ppp2p1p/5p2/5P2/1P6/1n4P1/2R3BP/2K5 w - - 1 24");
    assert_eq!(check_for_checks(&b), [true, false]);
    let legal = get_available_moves_internal(b, Color::White, false);
    assert_eq!(targets_of(&legal, "c1"), strings(&["b1", "b2", "d1"]));
    assert_eq!(targets_of(&legal, "c2"), strings(&[]));
    assert_eq!(count(&legal), 3);
}

#[test]
fn rook_slides_until_blocked() {
    let fen = "8/3P4/8/1P4P1/3r2P1/8/3pp3/8 b - - 0 1";
    assert_eq!(
        piece_moves(fen, "d4"),
        strings(&["a4", "b4", "c4", "e4", "f4", "g4", "d3", "d5", "d6", "d7"])
    );
}

#[test]
fn bishop_slides_along_diagonals() {
    assert_eq!(
        piece_moves("8/8/8/8/8/8/8/6B1 w - - 0 1", "g1"),
        strings(&["h2", "f2", "e3", "d4", "c5", "b6", "a7"])
    );
    assert_eq!(
        piece_moves("8/8/8/2p5/8/4B3/3P4/8 w - - 0 1", "e3"),
        strings(&["f2", "g1", "d4", "c5", "f4", "g5", "h6"])
    );
}

#[test]
fn queen_joins_rook_and_bishop() {
    let fen = "p7/5p2/3P4/1P1Q3P/4p3/1p6/3P4/8 w - - 0 1";
    assert_eq!(
        piece_moves(fen, "d5"),
        strings(&[
            "c5", "e5", "f5", "g5", "d4", "d3", "c6", "b7", "a8", "e6", "f7", "c4", "b3", "e4",
        ])
    );
}

#[test]
fn knight_jumps_from_corner_and_centre() {
    let fen = "N6N/8/8/4N3/8/8/8/N6N w - - 0 1";
    assert_eq!(piece_moves(fen, "a8"), strings(&["b6", "c7"]));
    assert_eq!(piece_moves(fen, "h1"), strings(&["f2", "g3"]));
    assert_eq!(
        piece_moves(fen, "e5"),
        strings(&["c4", "c6", "d3", "d7", "f3", "f7", "g4", "g6"])
    );
    // a knight jumps over pieces, but not onto its own
    assert_eq!(
        piece_moves("rnbqkbnr/pppppppp/8/8/8/8/PPPPPPPP/RNBQKBNR w KQkq - 0 1", "b1"),
        strings(&["a3", "c3"])
    );
}

#[test]
fn king_steps_to_neighbours() {
    let fen = "K6K/8/3pR3/3K4/8/8/8/K6K w - - 0 1";
    assert_eq!(piece_moves(fen, "a8"), strings(&["a7", "b7", "b8"]));
    assert_eq!(
        piece_moves(fen, "d5"),
        strings(&["c4", "c5", "c6", "d4", "d6", "e4", "e5"])
    );
}

#[test]
fn pawn_pushes_and_captures() {
    assert_eq!(piece_moves("8/4p3/8/8/8/8/8/8 b - - 0 1", "e7"), strings(&["e6", "e5"]));
    assert_eq!(piece_moves("8/8/4p3/8/8/8/8/8 b - - 0 1", "e6"), strings(&["e5"]));
    // blocked one step ahead: no push at all
    assert_eq!(piece_moves("8/4p3/4P3/8/8/8/8/8 b - - 0 1", "e7"), strings(&[]));
    // blocked two steps ahead: one push
    assert_eq!(piece_moves("8/4p3/8/4P3/8/8/8/8 b - - 0 1", "e7"), strings(&["e6"]));
    // captures on both sides, the edge files included
    assert_eq!(piece_moves("8/8/8/8/8/p1p5/1P6/8 w - - 0 1", "b2"), strings(&["a3", "b3", "b4", "c3"]));
    assert_eq!(piece_moves("8/8/8/8/8/6p1/7P/8 w - - 0 1", "h2"), strings(&["g3", "h3", "h4"]));
    // no capture of one's own piece, none straight ahead
    assert_eq!(piece_moves("8/8/8/8/8/P1p5/1P6/8 w - - 0 1", "b2"), strings(&["b3", "b4", "c3"]));
    // a pawn on its last rank has nowhere to go
    assert_eq!(piece_moves("4P3/8/8/8/8/8/8/8 w - - 0 1", "e8"), strings(&[]));
}

#[test]
fn moves_are_listed_once_each() {
    let b = board("p7/5p2/3P4/1P1Q3P/4p3/1p6/3P4/8 w - - 0 1");
    for m in get_available_moves_internal(b, Color::White, true) {
        let mut t = names(&m.targets);
        let n = t.len();
        t.dedup();
        assert_eq!(t.len(), n);
        assert!(n > 0);
    }
}

#[test]
fn counters_follow_the_moves() {
    let mut g = Game::new();
    assert!(g.make_move("g1".to_string(), "f3".to_string()));
    assert_eq!((g.board.halfmove_counter, g.board.turn_counter), (1, 1));
    assert_eq!(g.board.active_player, Color::Black);
    assert!(g.make_move("b8".to_string(), "c6".to_string()));
    assert_eq!((g.board.halfmove_counter, g.board.turn_counter), (2, 2));
    assert!(g.make_move("f3".to_string(), "e5".to_string()));
    assert_eq!((g.board.halfmove_counter, g.board.turn_counter), (3, 2));
    // a capture resets the clock
    assert!(g.make_move("c6".to_string(), "e5".to_string()));
    assert_eq!((g.board.halfmove_counter, g.board.turn_counter), (0, 3));
    assert!(g.make_move("b1".to_string(), "c3".to_string()));
    assert_eq!((g.board.halfmove_counter, g.board.turn_counter), (1, 3));
    // so does a pawn move
    assert!(g.make_move("a7".to_string(), "a6".to_string()));
    assert_eq!((g.board.halfmove_counter, g.board.turn_counter), (0, 4));
    assert_eq!(g.fen, "r1bqkbnr/1ppppppp/p7/4n3/8/2N5/PPPPPPPP/R1BQKB1R w KQkq - 0 4");
}

#[test]
fn position_text_round_trips() {
    let fens = [
        "rnbqkbnr/pppppppp/8/8/8/8/PPPPPPPP/RNBQKBNR w KQkq - 0 1",
        "8/3P4/8/1P4P1/3r2P1/8/3pp3/8 b - - 0 1",
        "4k3/6p1/8/pP1pP3/7P/8/8/4K3 w - d6 0 6",
        "r3k2r/pppppppp/8/8/8/8/PPPPPPPP/R3K2R w Kq - 10 120",
        "6k1/5p1p/8/6p1/2P1p1P1/4P2P/1r6/2K5 w - - 100 47",
        "8/8/8/8/8/8/8/8 b Qk h3 4294967295 18446744073709551615",
        "1p1p1p1p/p1p1p1p1/8/8/8/8/8/8 w - - 0 0",
    ];
    for fen in fens {
        assert_eq!(generate_fen(&parse_fen(fen).unwrap()), fen);
        assert_eq!(Game::new_from_fen(fen.to_string()).unwrap().fen, fen);
    }
}

#[test]
fn position_text_is_read_field_by_field() {
    let b = board("r3k2r/8/8/8/8/8/8/R3K2R b Qk e3 12 34");
    assert_eq!(get_piece(&b, &sq("a8")), piece(PieceKind::Rook, Color::Black));
    assert_eq!(get_piece(&b, &sq("e1")), piece(PieceKind::King, Color::White));
    assert_eq!(get_piece(&b, &sq("e4")), None);
    assert_eq!(b.active_player, Color::Black);
    assert!(!b.castling_availability.white_kingside);
    assert!(b.castling_availability.white_queenside);
    assert!(b.castling_availability.black_kingside);
    assert!(!b.castling_availability.black_queenside);
    assert_eq!(b.en_passant_square, Some(Coord { rank: 5, file: 4 }));
    assert_eq!(b.halfmove_counter, 12);
    assert_eq!(b.turn_counter, 34);
    assert_eq!(b.promotion_selection, PieceKind::Queen);
}

#[test]
fn malformed_position_text_names_its_field() {
    let e = |fen: &str| parse_fen(fen).unwrap_err();
    assert_eq!(e(""), FenError::FieldCount);
    assert_eq!(e("8/8/8/8/8/8/8/8 w - - 0"), FenError::FieldCount);
    assert_eq!(e("8/8/8/8/8/8/8/8 w - - 0 1 "), FenError::FieldCount);
    assert_eq!(e("8/8/8/8/8/8/8/8  w - - 0 1"), FenError::FieldCount);
    assert_eq!(e("8/8/8/8/8/8/8 w - - 0 1"), FenError::Placement);
    assert_eq!(e("8/8/8/8/8/8/8/8/8 w - - 0 1"), FenError::Placement);
    assert_eq!(e("8/8/8/8/8/8/8/7 w - - 0 1"), FenError::Placement);
    assert_eq!(e("8/8/8/8/8/8/8/9 w - - 0 1"), FenError::Placement);
    assert_eq!(e("8/8/8/8/8/8/8/44 w - - 0 1"), FenError::Placement);
    assert_eq!(e("8/8/8/8/8/8/8/7x w - - 0 1"), FenError::Placement);
    assert_eq!(e("8/8/8/8/8/8/8/pppppppp1 w - - 0 1"), FenError::Placement);
    assert_eq!(e("8/8/8/8/8/8/8/80 w - - 0 1"), FenError::Placement);
    assert_eq!(e("8/8/8/8/8/8/8/8 x - - 0 1"), FenError::ActiveColor);
    assert_eq!(e("8/8/8/8/8/8/8/8 W - - 0 1"), FenError::ActiveColor);
    assert_eq!(e("8/8/8/8/8/8/8/8 wb - - 0 1"), FenError::ActiveColor);
    // an empty field is a field
    assert_eq!(e("8/8/8/8/8/8/8/8 w  - 0 1"), FenError::Castling);
    assert_eq!(e("8/8/8/8/8/8/8/8 w QK - 0 1"), FenError::Castling);
    assert_eq!(e("8/8/8/8/8/8/8/8 w KK - 0 1"), FenError::Castling);
    assert_eq!(e("8/8/8/8/8/8/8/8 w K- - 0 1"), FenError::Castling);
    assert_eq!(e("8/8/8/8/8/8/8/8 w x - 0 1"), FenError::Castling);
    assert_eq!(e("8/8/8/8/8/8/8/8 w - e9 0 1"), FenError::EnPassant);
    assert_eq!(e("8/8/8/8/8/8/8/8 w - e 0 1"), FenError::EnPassant);
    assert_eq!(e("8/8/8/8/8/8/8/8 w - -- 0 1"), FenError::EnPassant);
    assert_eq!(e("8/8/8/8/8/8/8/8 w - - x 1"), FenError::HalfmoveClock);
    assert_eq!(e("8/8/8/8/8/8/8/8 w - - -1 1"), FenError::HalfmoveClock);
    assert_eq!(e("8/8/8/8/8/8/8/8 w - - 01 1"), FenError::HalfmoveClock);
    assert_eq!(e("8/8/8/8/8/8/8/8 w - - 4294967296 1"), FenError::HalfmoveClock);
    assert_eq!(e("8/8/8/8/8/8/8/8 w - - 0 one"), FenError::FullmoveNumber);
    assert_eq!(e("8/8/8/8/8/8/8/8 w - - 0 18446744073709551616"), FenError::FullmoveNumber);
    assert_eq!(e("8/8/8/8/8/8/8/8 w - - 0 00"), FenError::FullmoveNumber);
    assert_eq!(
        Game::new_from_fen("8/8/8/8/8/8/8/8 w - - 0".to_string()).unwrap_err(),
        FenError::FieldCount
    );
}

#[test]
fn square_names_map_both_ways() {
    for rank in 0..8u8 {
        for file in 0..8u8 {
            let c = Coord { rank, file };
            assert_eq!(get_board_coords(get_algebraic_notation(c)), Ok(c));
        }
    }
    assert_eq!(get_algebraic_notation(Coord { rank: 0, file: 0 }), "a8");
    assert_eq!(get_algebraic_notation(Coord { rank: 7, file: 7 }), "h1");
    assert_eq!(get_algebraic_notation(Coord { rank: 3, file: 4 }), "e5");
    assert_eq!(get_board_coords("a8".to_string()), Ok(Coord { rank: 0, file: 0 }));
    assert_eq!(get_board_coords("h1".to_string()), Ok(Coord { rank: 7, file: 7 }));
}

#[test]
fn malformed_square_names_are_rejected() {
    assert_eq!(get_board_coords("".to_string()), Err(NotationError::Length));
    assert_eq!(get_board_coords("d".to_string()), Err(NotationError::Length));
    assert_eq!(get_board_coords("d66".to_string()), Err(NotationError::Length));
    assert_eq!(get_board_coords("i1".to_string()), Err(NotationError::File));
    assert_eq!(get_board_coords("D6".to_string()), Err(NotationError::File));
    assert_eq!(get_board_coords("11".to_string()), Err(NotationError::File));
    assert_eq!(get_board_coords("a9".to_string()), Err(NotationError::Rank));
    assert_eq!(get_board_coords("a0".to_string()), Err(NotationError::Rank));
    assert_eq!(get_board_coords("ah".to_string()), Err(NotationError::Rank));
}

#[test]
fn update_game_status_recomputes_flags_and_status() {
    let mut g = game("R5k1/5ppp/8/8/8/8/8/6K1 b - - 0 1");
    g.checks = [true, false];
    g.game_status = GameStatus::InProgress;
    g.update_game_status();
    assert_eq!(g.checks, [false, true]);
    assert_eq!(g.game_status, GameStatus::CheckmateWhiteWins);
}

#[test]
fn set_piece_changes_one_square() {
    let mut b = board("8/8/8/8/8/8/8/8 w - - 0 1");
    b.set_piece(&sq("c3"), piece(PieceKind::Knight, Color::Black));
    assert_eq!(generate_fen(&b), "8/8/8/8/8/2n5/8/8 w - - 0 1");
    b.set_piece(&sq("c3"), None);
    assert_eq!(generate_fen(&b), "8/8/8/8/8/8/8/8 w - - 0 1");
}

#[test]
fn castling_looks_only_at_where_the_king_stands_and_lands() {
    // the rook on f2 attacks f1, which the king crosses, but neither e1 nor g1
    let b = board("4k3/8/8/8/8/8/5r2/R3K2R w KQ - 0 1");
    assert!(!player_is_in_check(&b, Color::White));
    let legal = get_available_moves_internal(b, Color::White, false);
    assert_eq!(targets_of(&legal, "e1"), strings(&["c1", "d1", "f2", "g1"]));
    // a rook on g2 attacks the landing square: no castling on that side
    let c = board("4k3/8/8/8/8/8/6r1/R3K2R w KQ - 0 1");
    let legal = get_available_moves_internal(c, Color::White, false);
    assert_eq!(targets_of(&legal, "e1"), strings(&["c1", "d1", "f1"]));
}

#[test]
fn default_game_is_a_new_game() {
    assert_eq!(Game::default(), Game::new());
}

#[test]
fn move_piece_does_not_ask_for_legality() {
    let mut b = board("4k3/8/8/8/8/8/8/R3K3 w Q - 7 9");
    b.move_piece(sq("a1"), sq("h8"));
    assert_eq!(generate_fen(&b), "4k2R/8/8/8/8/8/8/4K3 b - - 8 9");
    b.move_piece(sq("e8"), sq("e1"));
    assert_eq!(generate_fen(&b), "7R/8/8/8/8/8/8/4k3 w - - 0 10");
}
