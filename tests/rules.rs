use chess_rules::fen::FenRecord;
use chess_rules::geometry::{get_bounds, get_unvalidated_diag_moves, get_unvalidated_horiz_vert_moves};
use chess_rules::movegen::{get_king_unvalidated_moves, get_knight_unvalidated_moves, get_pawn_unvalidated_moves};
use chess_rules::notation::{index_to_spot, notation_to_index, parse_move};
use chess_rules::{
    game_move_piece, get_avaiable_actions, get_legal_moves, ActionIter, Chess, ChessErrors, Move,
    MoveType, Piece, PieceType, Player, Promotion, FEN_INITIAL_STATE,
};

fn play(fen: &str, moves: &[&str]) -> Chess {
    let mut chess = Chess::from_fen(fen).unwrap();
    for m in moves {
        chess.move_piece(m).unwrap();
    }
    chess
}

fn legal_count(fen: &str) -> usize {
    Chess::from_fen(fen).unwrap().get_legal_moves().len()
}

fn has_move(chess: &Chess, from: &str, to: &str, promotion: Option<Promotion>) -> bool {
    let from = notation_to_index(from).unwrap();
    let to = notation_to_index(to).unwrap();
    chess.get_legal_moves().contains(&Move { from, to, promotion })
}

#[test]
fn start_position_has_twenty_moves() {
    assert_eq!(legal_count(FEN_INITIAL_STATE), 20);
    assert_eq!(get_avaiable_actions(FEN_INITIAL_STATE).len(), 20);
    let (map, _) = get_legal_moves(FEN_INITIAL_STATE).unwrap();
    let total: usize = map.iter().map(|(_, d)| d.len()).sum();
    assert_eq!(total, 20);
    assert_eq!(map.len(), 10);
    let e2 = map.iter().find(|(k, _)| k == "e2").unwrap();
    let mut dests = e2.1.clone();
    dests.sort();
    assert_eq!(dests, vec!["e3".to_string(), "e4".to_string()]);
}

#[test]
fn position_after_e4_e5_has_twenty_nine_moves() {
    assert_eq!(legal_count("rnbqkbnr/pppp1ppp/8/4p3/4P3/8/PPPP1PPP/RNBQKBNR w KQkq - 0 1"), 29);
}

#[test]
fn pinned_bishop_cannot_move() {
    let chess = Chess::from_fen("4r2k/8/8/8/8/8/4B3/4K3 w - - 0 1").unwrap();
    let e2 = notation_to_index("e2").unwrap();
    assert!(chess.get_legal_moves().iter().all(|m| m.from != e2));
    assert_eq!(chess.is_move_valid(e2, notation_to_index("d3").unwrap(), None), Ok(MoveType::Regular));
}

#[test]
fn pinned_knight_in_open_game_is_excluded() {
    let chess = Chess::from_fen("rnb1kbnr/pppp1ppp/8/4p3/4P3/8/PPPPNqPP/RNBQKB1R w KQkq - 0 1").unwrap();
    assert!(!has_move(&chess, "e2", "c3", None));
    assert!(has_move(&chess, "e1", "f2", None));
    assert_eq!(chess.get_legal_moves().len(), 1);
}

#[test]
fn king_in_check_on_rank_must_step_off() {
    let chess = Chess::from_fen("4k3/8/8/8/8/8/8/r3K3 w - - 0 1").unwrap();
    let moves = chess.get_legal_moves();
    assert_eq!(moves.len(), 3);
    assert!(has_move(&chess, "e1", "d2", None));
    assert!(has_move(&chess, "e1", "e2", None));
    assert!(has_move(&chess, "e1", "f2", None));
}

#[test]
fn castling_is_offered_then_gone_for_good() {
    let fen = "r3k2r/8/8/8/8/8/8/R3K2R w KQkq - 0 1";
    let chess = Chess::from_fen(fen).unwrap();
    assert!(has_move(&chess, "e1", "g1", None));
    assert!(has_move(&chess, "e1", "c1", None));
    let castled = play(fen, &["e1g1"]);
    assert_eq!(castled.to_fen(), "r3k2r/8/8/8/8/8/8/R4RK1 b kq - 1 1");
    let back = play(
        fen,
        &["e1g1", "a8b8", "g1g2", "b8a8", "f1h1", "a8b8", "g2f1", "b8a8", "f1e1", "a8b8"],
    );
    assert_eq!(back.to_fen(), "1r2k2r/8/8/8/8/8/8/R3K2R w k - 10 6");
    assert!(!has_move(&back, "e1", "g1", None));
    let mut again = back;
    assert_eq!(again.move_piece("e1g1"), Err(ChessErrors::InvalidMove));
}

#[test]
fn rook_move_gives_up_its_side_only() {
    let chess = play("r3k2r/8/8/8/8/8/8/R3K2R w KQkq - 0 1", &["h1h2"]);
    assert_eq!(chess.to_fen(), "r3k2r/8/8/8/8/8/7R/R3K3 b Qkq - 1 1");
}

#[test]
fn queen_side_castling_moves_the_rook() {
    let chess = play("r3k2r/8/8/8/8/8/8/R3K2R w KQkq - 0 1", &["e1c1", "e8g8"]);
    assert_eq!(chess.to_fen(), "r4rk1/8/8/8/8/8/8/2KR3R w - - 2 2");
}

#[test]
fn castling_through_a_piece_is_refused() {
    let mut chess = Chess::from_fen("r3k2r/8/8/8/8/8/8/R3KB1R w KQkq - 0 1").unwrap();
    assert_eq!(chess.move_piece("e1g1"), Err(ChessErrors::PieceBetween));
    let mut chess = Chess::from_fen("r3k2r/8/8/8/8/8/8/RN2K2R w KQkq - 0 1").unwrap();
    assert_eq!(chess.move_piece("e1c1"), Err(ChessErrors::InvalidMove));
}

#[test]
fn en_passant_target_and_capture() {
    let after_push = play("4k3/8/8/8/3p4/8/4P3/4K3 w - - 0 1", &["e2e4"]);
    assert_eq!(after_push.to_fen(), "4k3/8/8/8/3pP3/8/8/4K3 b - e3 0 1");
    assert_eq!(after_push.en_passant_target, Some(notation_to_index("e3").unwrap()));
    let d4 = notation_to_index("d4").unwrap();
    let e3 = notation_to_index("e3").unwrap();
    let e4 = notation_to_index("e4").unwrap();
    assert_eq!(after_push.is_move_valid(d4, e3, None), Ok(MoveType::Enpassant(e4)));
    let mut taken = after_push;
    taken.move_piece("d4e3").unwrap();
    assert_eq!(taken.to_fen(), "4k3/8/8/8/8/4p3/8/4K3 w - - 0 2");
}

#[test]
fn en_passant_expires_after_one_move() {
    let chess = play("4k3/8/8/8/3p4/8/4P3/4K3 w - - 0 1", &["e2e4", "e8d8", "e1d1"]);
    let mut c = chess;
    assert_eq!(c.move_piece("d4e3"), Err(ChessErrors::PawnCanOnlyAttackDiagonal));
}

#[test]
fn promotion_defaults_to_queen() {
    let chess = play("k7/4P3/8/8/8/8/8/4K3 w - - 0 1", &["e7e8"]);
    assert_eq!(chess.to_fen(), "k3Q3/8/8/8/8/8/8/4K3 b - - 0 1");
}

#[test]
fn promotion_letters_pick_the_piece() {
    let fen = "k7/4P3/8/8/8/8/8/4K3 w - - 0 1";
    assert_eq!(play(fen, &["e7e8r"]).to_fen(), "k3R3/8/8/8/8/8/8/4K3 b - - 0 1");
    assert_eq!(play(fen, &["e7e8b"]).to_fen(), "k3B3/8/8/8/8/8/8/4K3 b - - 0 1");
    assert_eq!(play(fen, &["e7e8k"]).to_fen(), "k3N3/8/8/8/8/8/8/4K3 b - - 0 1");
    assert_eq!(play(fen, &["e7e8n"]).to_fen(), "k3N3/8/8/8/8/8/8/4K3 b - - 0 1");
    assert_eq!(play(fen, &["E7E8Q"]).to_fen(), "k3Q3/8/8/8/8/8/8/4K3 b - - 0 1");
}

#[test]
fn black_promotion_by_capture() {
    let chess = play("4k3/8/8/8/8/8/3p4/2R1K3 b - - 3 9", &["d2c1n"]);
    assert_eq!(chess.to_fen(), "4k3/8/8/8/8/8/8/2n1K3 w - - 0 10");
}

#[test]
fn promotion_moves_are_listed_per_piece() {
    let chess = Chess::from_fen("k7/4P3/8/8/8/8/8/4K3 w - - 0 1").unwrap();
    for p in [None, Some(Promotion::Queen), Some(Promotion::Rook), Some(Promotion::Knight), Some(Promotion::Bishop)] {
        assert!(has_move(&chess, "e7", "e8", p));
    }
    let (map, _) = get_legal_moves("k7/4P3/8/8/8/8/8/4K3 w - - 0 1").unwrap();
    let e7 = map.iter().find(|(k, _)| k == "e7").unwrap();
    let mut dests = e7.1.clone();
    dests.sort();
    assert_eq!(dests, vec!["e8", "e8b", "e8n", "e8q", "e8r"]);
}

#[test]
fn clocks_follow_the_moves() {
    let c1 = play(FEN_INITIAL_STATE, &["e2e4"]);
    assert_eq!((c1.halfmove_clock, c1.full_move_number), (0, 1));
    let c2 = play(FEN_INITIAL_STATE, &["e2e4", "g8f6"]);
    assert_eq!((c2.halfmove_clock, c2.full_move_number), (1, 2));
    let c3 = play(FEN_INITIAL_STATE, &["e2e4", "g8f6", "g1f3"]);
    assert_eq!((c3.halfmove_clock, c3.full_move_number), (2, 2));
    let c4 = play(FEN_INITIAL_STATE, &["e2e4", "g8f6", "g1f3", "f6e4"]);
    assert_eq!((c4.halfmove_clock, c4.full_move_number), (0, 3));
}

#[test]
fn halfmove_clock_stops_at_its_largest_value() {
    let c = play("4k3/8/8/8/8/8/8/4K3 w - - 255 1", &["e1e2"]);
    assert_eq!(c.halfmove_clock, 255);
}

#[test]
fn position_strings_round_trip() {
    for fen in [
        FEN_INITIAL_STATE,
        "rnbqkbnr/pppp1ppp/8/4p3/4P3/8/PPPP1PPP/RNBQKBNR w KQkq - 0 1",
        "4k3/8/8/8/3pP3/8/8/4K3 b - e3 0 1",
        "r3k2r/8/8/8/8/8/8/R4RK1 b kq - 1 1",
        "8/8/8/8/8/8/8/8 w - - 255 65535",
    ] {
        assert_eq!(Chess::from_fen(fen).unwrap().to_fen(), fen);
    }
}

#[test]
fn record_fields_are_read() {
    let r = FenRecord::from_fen_str("rnbqkbnr/pppp1ppp/8/4p3/4P3/8/PPPP1PPP/RNBQKBNR b Kq e6 12 34").unwrap();
    assert_eq!(r.piece_placement_data, "rnbqkbnr/pppp1ppp/8/4p3/4P3/8/PPPP1PPP/RNBQKBNR");
    assert_eq!(r.player, 'b');
    assert_eq!(r.castling, "Kq");
    assert_eq!(r.en_passant_target, "e6");
    assert_eq!(r.halfmove_clock, 12);
    assert_eq!(r.full_move_number, 34);
    assert_eq!(r.to_fen_string(), "rnbqkbnr/pppp1ppp/8/4p3/4P3/8/PPPP1PPP/RNBQKBNR b Kq e6 12 34");
}

#[test]
fn malformed_position_strings_are_refused() {
    for fen in [
        "",
        "rnbqkbnr/pppppppp/8/8/8/8/PPPPPPPP/RNBQKBNR w KQkq - 0",
        "rnbqkbnr/pppppppp/8/8/8/8/PPPPPPPP/RNBQKBNR w KQkq - 0 1 x",
        "rnbqkbnr/pppppppp/9/8/8/8/PPPPPPPP/RNBQKBNR w KQkq - 0 1",
        "rnbqkbnr/pppppppp/0/8/8/8/PPPPPPPP/RNBQKBNR w KQkq - 0 1",
        "rnbqkbnr/ppppxppp/8/8/8/8/PPPPPPPP/RNBQKBNR w KQkq - 0 1",
        "rnbqkbnr/ppppppp/8/8/8/8/PPPPPPPP/RNBQKBNR w KQkq - 0 1",
        "rnbqkbnr/pppppppp/8/8/8/8/PPPPPPPP w KQkq - 0 1",
        "rnbqkbnr/pppppppp/8/8/8/8/PPPPPPPP/RNBQKBNR x KQkq - 0 1",
        "rnbqkbnr/pppppppp/8/8/8/8/PPPPPPPP/RNBQKBNR w KQxq - 0 1",
        "rnbqkbnr/pppppppp/8/8/8/8/PPPPPPPP/RNBQKBNR w KQkq e4 0 1",
        "rnbqkbnr/pppppppp/8/8/8/8/PPPPPPPP/RNBQKBNR w KQkq - 256 1",
        "rnbqkbnr/pppppppp/8/8/8/8/PPPPPPPP/RNBQKBNR w KQkq - 0 65536",
        "rnbqkbnr/pppppppp/8/8/8/8/PPPPPPPP/RNBQKBNR w KQkq - a 1",
    ] {
        assert_eq!(Chess::from_fen(fen).err(), Some(ChessErrors::InvalidNotation), "{}", fen);
    }
}

#[test]
fn move_errors_are_reported() {
    let start = Chess::from_fen(FEN_INITIAL_STATE).unwrap();
    let cases = [
        ("e7e5", ChessErrors::WrongPlayer),
        ("e3e4", ChessErrors::NoPiece),
        ("a1a2", ChessErrors::PlayerPieceAlreadyThere),
        ("b1b3", ChessErrors::PieceBetween),
        ("e2d3", ChessErrors::PawnCanOnlyAttackDiagonal),
        ("e2e4q", ChessErrors::InvalidPromotion),
        ("e2e4x", ChessErrors::InvalidPromotion),
        ("e9e4", ChessErrors::InvalidNotation),
        ("e2", ChessErrors::InvalidNotation),
        ("e2e4e5", ChessErrors::InvalidNotation),
        ("i2i4", ChessErrors::InvalidNotation),
    ];
    for (mv, err) in cases {
        let mut c = start;
        assert_eq!(c.move_piece(mv), Err(err), "{}", mv);
        assert_eq!(c.to_fen(), FEN_INITIAL_STATE);
    }
    let mut knight = Chess::from_fen("4k3/8/8/8/8/8/8/1N2K3 w - - 0 1").unwrap();
    assert_eq!(knight.move_piece("b1b3"), Err(ChessErrors::InvalidMove));
    let mut c = Chess::from_fen("4k3/8/8/8/8/8/8/R3K3 w - - 0 1").unwrap();
    let mut diagonal = c;
    assert_eq!(diagonal.move_piece("a1b2"), Err(ChessErrors::InvalidMove));
    let mut forward = Chess::from_fen("4k3/8/8/8/8/4p3/4P3/4K3 w - - 0 1").unwrap();
    assert_eq!(forward.move_piece("e2e3"), Err(ChessErrors::PawnCantAttackForward));
    assert_eq!(c.move_piece("a1a8"), Ok(()));
}

#[test]
fn path_blocking_stops_sliders() {
    let mut c = Chess::from_fen("4k3/8/8/8/8/8/P7/R3K3 w - - 0 1").unwrap();
    assert_eq!(c.move_piece("a1a5"), Err(ChessErrors::PieceBetween));
    let mut d = Chess::from_fen("4k3/8/8/8/8/8/8/R1p1K3 w - - 0 1").unwrap();
    assert_eq!(d.move_piece("a1d1"), Err(ChessErrors::PieceBetween));
    assert_eq!(d.move_piece("a1c1"), Ok(()));
}

#[test]
fn game_move_piece_returns_new_position() {
    let (fen, web, moves) = game_move_piece(FEN_INITIAL_STATE, "e2e4").unwrap();
    assert_eq!(fen, "rnbqkbnr/pppppppp/8/8/4P3/8/PPPP1PPP/RNBQKBNR b KQkq e3 0 1");
    assert_eq!(web.state[4][4], 'P');
    assert_eq!(web.state[6][4], '.');
    assert_eq!(web.state[0], ['r', 'n', 'b', 'q', 'k', 'b', 'n', 'r']);
    let total: usize = moves.iter().map(|(_, d)| d.len()).sum();
    assert_eq!(total, 20);
    assert!(moves.iter().any(|(k, _)| k == "g8"));
    assert_eq!(game_move_piece(FEN_INITIAL_STATE, "e2e5").err(), Some(ChessErrors::InvalidMove));
    assert_eq!(game_move_piece("bad", "e2e4").err(), Some(ChessErrors::InvalidNotation));
}

#[test]
fn available_actions_are_five_characters() {
    let actions = get_avaiable_actions("k7/4P3/8/8/8/8/8/4K3 w - - 0 1");
    assert!(actions.contains(&['e', '7', 'e', '8', 'q']));
    assert!(actions.contains(&['e', '7', 'e', '8', ' ']));
    assert!(actions.contains(&['e', '1', 'd', '2', ' ']));
    assert!(get_avaiable_actions("nonsense").is_empty());
}

#[test]
fn action_iter_hands_out_each_action_once() {
    let mut it = ActionIter::new(Player::White, vec![['e', '2', 'e', '4', ' '], ['d', '2', 'd', '4', ' ']]);
    assert_eq!(it.next_action(), Some((Player::White, ['e', '2', 'e', '4', ' '])));
    assert_eq!(it.next_action(), Some((Player::White, ['d', '2', 'd', '4', ' '])));
    assert_eq!(it.next_action(), None);
}

#[test]
fn labels_and_move_strings() {
    assert_eq!(index_to_spot(0), "a8");
    assert_eq!(index_to_spot(63), "h1");
    assert_eq!(index_to_spot(36), "e4");
    assert_eq!(notation_to_index("e4"), Ok(36));
    assert_eq!(notation_to_index("e44"), Err(ChessErrors::InvalidNotation));
    assert_eq!(parse_move("e7e8R"), Ok((12, 4, Some(Promotion::Rook))));
    assert_eq!(parse_move("a2a4"), Ok((48, 32, None)));
}

#[test]
fn generators_cover_the_board_geometry() {
    let mut knight = get_knight_unvalidated_moves(0);
    knight.sort();
    assert_eq!(knight, vec![10, 17]);
    assert_eq!(get_knight_unvalidated_moves(36).len(), 8);
    assert_eq!(get_king_unvalidated_moves(63).len(), 3);
    assert_eq!(get_king_unvalidated_moves(27).len(), 8);
    assert_eq!(get_unvalidated_horiz_vert_moves(0).len(), 14);
    assert_eq!(get_unvalidated_diag_moves(0).len(), 7);
    assert_eq!(get_unvalidated_diag_moves(27).len(), 13);
    let white_pawn = Piece { piece_type: PieceType::WhitePawn };
    let mut pawn = get_pawn_unvalidated_moves(&white_pawn, 52);
    pawn.sort();
    assert_eq!(pawn, vec![36, 43, 44, 45]);
    let black_pawn = Piece { piece_type: PieceType::BlackPawn };
    assert_eq!(get_pawn_unvalidated_moves(&black_pawn, 8), vec![16, 17, 24]);
    let b = get_bounds(0);
    assert_eq!((b.top, b.left, b.right, b.bottom), (None, None, Some(1), Some(8)));
    assert_eq!(b.bottom_right_diag, Some(9));
}

#[test]
fn piece_owner() {
    assert_eq!(Piece { piece_type: PieceType::BlackQueen }.get_player(), Player::Black);
    assert_eq!(Piece { piece_type: PieceType::WhitePawn }.get_player(), Player::White);
}

#[test]
fn error_messages() {
    assert_eq!(ChessErrors::PieceBetween.message(), "a piece is in the way");
}

fn perft(chess: &Chess, depth: u32) -> u64 {
    if depth == 0 {
        return 1;
    }
    let moves = chess.get_legal_moves();
    if depth == 1 {
        return moves.len() as u64;
    }
    let mut total = 0;
    for m in moves {
        let mt = chess.is_move_valid(m.from, m.to, m.promotion).unwrap();
        let mut next = *chess;
        next.perform_move(m.from, m.to, mt);
        total += perft(&next, depth - 1);
    }
    total
}

#[test]
fn move_counts_from_the_start() {
    let start = Chess::from_fen(FEN_INITIAL_STATE).unwrap();
    assert_eq!(perft(&start, 2), 400);
    assert_eq!(perft(&start, 3), 8902);
}

#[test]
fn move_counts_in_a_busy_middlegame() {
    let c = Chess::from_fen("r3k2r/p1ppqpb1/bn2pnp1/3PN3/1p2P3/2N2Q1p/PPPBBPPP/R3K2R w KQkq - 0 1").unwrap();
    assert_eq!(perft(&c, 1), 48);
}

#[test]
fn legal_moves_never_leave_the_king_attacked() {
    for fen in [
        FEN_INITIAL_STATE,
        "rnbqkbnr/pppp1ppp/8/4p3/4P3/8/PPPP1PPP/RNBQKBNR w KQkq - 0 1",
        "4r2k/8/8/8/8/8/4B3/4K3 w - - 0 1",
        "r3k2r/p1ppqpb1/bn2pnp1/3PN3/1p2P3/2N2Q1p/PPPBBPPP/R3K2R w KQkq - 0 1",
        "4k3/8/8/8/3pP3/8/8/4K3 b - e3 0 1",
    ] {
        let chess = Chess::from_fen(fen).unwrap();
        for m in chess.get_legal_moves() {
            let mt = chess.is_move_valid(m.from, m.to, m.promotion).unwrap();
            assert!(!chess.check_for_check(m.from, m.to, mt));
            let mut next = chess;
            next.perform_move(m.from, m.to, mt);
            assert!(!next.is_king_attacked(chess.player), "{} {:?}", fen, m);
        }
    }
}

#[test]
fn candidates_are_the_union_of_the_piece_generators() {
    let start = Chess::from_fen(FEN_INITIAL_STATE).unwrap();
    let candidates = start.get_unvalidated_moves();
    assert_eq!(candidates.len(), 104);
    let e1 = notation_to_index("e1").unwrap();
    let mut from_e1: Vec<String> = candidates.iter().filter(|m| m.from == e1).map(|m| index_to_spot(m.to)).collect();
    from_e1.sort();
    assert_eq!(from_e1, vec!["d1", "d2", "e2", "f1", "f2"]);
    let castle = Chess::from_fen("r3k2r/8/8/8/8/8/8/R3K2R w KQkq - 0 1").unwrap();
    let g1 = notation_to_index("g1").unwrap();
    assert!(!castle.get_unvalidated_moves().iter().any(|m| m.from == e1 && m.to == g1));
    assert!(has_move(&castle, "e1", "g1", None));
}

#[test]
fn each_move_is_listed_once() {
    for fen in [FEN_INITIAL_STATE, "r3k2r/8/8/8/8/8/8/R3K2R w KQkq - 0 1", "k7/4P3/8/8/8/8/8/4K3 w - - 0 1"] {
        let chess = Chess::from_fen(fen).unwrap();
        let moves = chess.get_legal_moves();
        let mut keys: Vec<(usize, usize, String)> = moves.iter().map(|m| (m.from, m.to, format!("{:?}", m.promotion))).collect();
        keys.sort();
        keys.dedup();
        assert_eq!(keys.len(), moves.len());
        let actions = get_avaiable_actions(fen);
        let mut a = actions.clone();
        a.sort();
        a.dedup();
        assert_eq!(a.len(), actions.len());
        assert_eq!(actions.len(), moves.len());
    }
    let (_, _, reply) = game_move_piece(FEN_INITIAL_STATE, "e2e4").unwrap();
    let total: usize = reply.iter().map(|(_, d)| d.len()).sum();
    assert_eq!(total, 20);
}

#[test]
fn capturing_a_rook_leaves_the_other_side_its_right() {
    let chess = play("4k2r/8/8/8/8/8/8/4K2R b Kk - 0 1", &["h8h1"]);
    assert_eq!(chess.to_fen(), "4k3/8/8/8/8/8/8/4K2r w K - 0 2");
}
