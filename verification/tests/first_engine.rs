// The first engine: move generation, perft counts and taking moves back.

use bogochess::chess::{Board, Color, GameState, MoveType, Piece, PieceType, Position};
use bogochess::perft::{perft, playable_within};
use bogochess::search::{compare_moves, SearchOptions};
use std::cmp::Ordering;

/// A state from the piece placement of a FEN record (rank 8 first, which is
/// row 0), the side to move and the castlings.
fn state(placement: &str, active: Color, castlings: &str) -> GameState {
    let mut board = Board::new();
    let mut row = 0;
    let mut column = 0;
    for c in placement.chars() {
        if c == '/' {
            row += 1;
            column = 0;
        } else if let Some(d) = c.to_digit(10) {
            column += d as i32;
        } else {
            let color = if c.is_uppercase() { Color::White } else { Color::Black };
            let t = match c.to_ascii_lowercase() {
                'p' => PieceType::Pawn,
                'n' => PieceType::Knight,
                'b' => PieceType::Bishop,
                'r' => PieceType::Rook,
                'q' => PieceType::Queen,
                _ => PieceType::King,
            };
            board.insert(Position::new(row, column), Piece::new(t, color));
            column += 1;
        }
    }
    let mut rights = Vec::new();
    for c in castlings.chars() {
        match c {
            'K' => rights.push(Piece::new(PieceType::King, Color::White)),
            'Q' => rights.push(Piece::new(PieceType::Queen, Color::White)),
            'k' => rights.push(Piece::new(PieceType::King, Color::Black)),
            'q' => rights.push(Piece::new(PieceType::Queen, Color::Black)),
            _ => {},
        }
    }
    GameState { board, active_color: active, castlings: rights, en_passant: None, halfmoves: 0 }
}

fn initial() -> GameState {
    state("rnbqkbnr/pppppppp/8/8/8/8/PPPPPPPP/RNBQKBNR", Color::White, "KQkq")
}

fn kiwipete() -> GameState {
    state("r3k2r/p1ppqpb1/bn2pnp1/3PN3/1p2P3/2N2Q1p/PPPBBPPP/R3K2R", Color::White, "KQkq")
}

fn names(moves: &[bogochess::chess::Move]) -> Vec<String> {
    let mut result: Vec<String> = moves.iter().map(|m| m.name().into_iter().collect()).collect();
    result.sort();
    result
}

#[test]
fn first_engine_initial_moves() {
    let mut s = initial();
    let moves = s.moves();
    assert_eq!(moves.len(), 20);
    let n = names(&moves);
    assert!(n.contains(&"e2e4".to_string()));
    assert!(n.contains(&"b1c3".to_string()));
    let two = moves.iter().filter(|m| m.t == MoveType::TwoSquare).count();
    assert_eq!(two, 8);
}

#[test]
fn first_engine_perft_initial() {
    let mut s = initial();
    assert_eq!(perft(&mut s, 0), 1);
    assert_eq!(perft(&mut s, 1), 20);
    assert_eq!(perft(&mut s, 2), 400);
    assert_eq!(perft(&mut s, 3), 8902);
}

#[test]
fn first_engine_perft_kiwipete() {
    let mut s = kiwipete();
    assert_eq!(perft(&mut s, 1), 48);
    assert_eq!(perft(&mut s, 2), 2039);
}

#[test]
fn first_engine_undo_restores() {
    let mut s = kiwipete();
    let before = s.clone();
    let moves = s.moves();
    for m in &moves {
        s.apply(m);
        s.undo(m);
        assert_eq!(s, before);
    }
}

#[test]
fn first_engine_castles() {
    let mut s = kiwipete();
    let n = names(&s.moves());
    assert!(n.contains(&"e1g1".to_string()));
    assert!(n.contains(&"e1c1".to_string()));
    let moves = s.moves();
    let castle = moves.iter().find(|m| m.t == MoveType::Castle && m.destination == Position::new(7, 6)).unwrap();
    s.apply(castle);
    assert_eq!(s.board.get(Position::new(7, 5)), Some(Piece::new(PieceType::Rook, Color::White)));
    assert_eq!(s.board.get(Position::new(7, 6)), Some(Piece::new(PieceType::King, Color::White)));
    assert!(s.castlings.iter().all(|p| p.color == Color::Black));
    assert_eq!(s.active_color, Color::Black);
}

#[test]
fn first_engine_no_castle_through_attack() {
    let mut s = state("4k3/8/8/8/8/8/5r2/R3K2R", Color::White, "KQ");
    let n = names(&s.moves());
    assert!(!n.contains(&"e1g1".to_string()));
    assert!(n.contains(&"e1c1".to_string()));
}

#[test]
fn first_engine_check() {
    let mut s = state("4k3/8/8/8/8/8/4r3/4K3", Color::Black, "");
    assert!(s.in_check());
    let mut s = state("4k3/8/8/8/8/8/3r4/4K3", Color::Black, "");
    assert!(!s.in_check());
    let mut s = state("4k3/8/8/8/8/8/4r3/4K3", Color::White, "");
    let n = names(&s.moves());
    assert_eq!(n, vec!["e1d1", "e1e2", "e1f1"]);
}

#[test]
fn first_engine_promotions() {
    let mut s = state("8/P6k/8/8/8/8/8/K7", Color::White, "");
    let moves = s.moves();
    let promotions = moves.iter().filter(|m| m.promotion.is_some()).count();
    assert_eq!(promotions, 4);
}

#[test]
fn first_engine_en_passant() {
    let mut s = state("4k3/8/8/3pP3/8/8/8/4K3", Color::White, "");
    s.en_passant = Some(Position::new(2, 3));
    let before = s.clone();
    let moves = s.moves();
    let ep = moves.iter().find(|m| m.t == MoveType::EnPassant).unwrap();
    assert_eq!(ep.destination, Position::new(2, 3));
    s.apply(ep);
    assert_eq!(s.board.get(Position::new(3, 3)), None);
    assert_eq!(s.board.get(Position::new(2, 3)), Some(Piece::new(PieceType::Pawn, Color::White)));
    s.undo(ep);
    assert_eq!(s, before);
}

#[test]
fn first_engine_positions() {
    assert!(Position::new(0, 7).is_valid());
    assert!(!Position::new(8, 0).is_valid());
    assert!(!Position::new(0, -1).is_valid());
    assert_eq!(Position::new(6, 4).offset(Position::new(-2, 0)), Position::new(4, 4));
    assert_eq!(Position::new(7, 0).name(), vec!['a', '1']);
    assert_eq!(Position::new(0, 7).name(), vec!['h', '8']);
    assert_eq!(Color::White.not(), Color::Black);
}

#[test]
fn first_engine_clock() {
    let mut o = SearchOptions::new();
    assert!(o.white_time.is_none());
    o.black_time = Some(500);
    o.moves_to_go = Some(4);
    assert_eq!(o.get_time(Color::Black), (500, 4));
}

#[test]
fn first_engine_slides_by_any_offset() {
    let s = state("8/8/8/8/8/8/8/R7", Color::White, "");
    let moves = s.sliding_move(Position::new(7, 0), vec![Position::new(-2, 1)]);
    let reached: Vec<(i32, i32)> = moves.iter().map(|m| (m.destination.row, m.destination.column)).collect();
    assert_eq!(reached, vec![(5, 1), (3, 2), (1, 3)]);
    assert!(moves.iter().all(|m| m.captured.is_none()));

    let s = state("8/8/8/2p5/8/8/8/R7", Color::White, "");
    let moves = s.sliding_move(Position::new(7, 0), vec![Position::new(-2, 1), Position::new(0, 0)]);
    let reached: Vec<(i32, i32)> = moves.iter().map(|m| (m.destination.row, m.destination.column)).collect();
    assert_eq!(reached, vec![(5, 1), (3, 2)]);
    assert_eq!(moves[1].captured, Some(Piece::new(PieceType::Pawn, Color::Black)));

    let far = s.offsets_move(Position::new(7, 0), vec![Position::new(100, 0), Position::new(-7, 7)]);
    assert_eq!(far.len(), 1);
    assert_eq!((far[0].destination.row, far[0].destination.column), (0, 7));
}

#[test]
fn first_engine_playable_within() {
    let mut s = initial();
    assert!(s.is_playable());
    assert!(playable_within(&mut s, 3));
    assert_eq!(s, initial());
    // The knight takes the rook on a8 and black may still castle on that
    // side: the knight stands in for the rook, as in a board of squares.
    let mut corner = state("r3k3/7p/1N6/8/8/8/8/7K", Color::White, "q");
    assert!(corner.is_playable());
    assert!(playable_within(&mut corner, 2));
    // A move from a8 ends black's castling on that side, so the corner is
    // never found empty while the castling is still allowed.
    assert!(playable_within(&mut corner, 3));
    // A white pawn on the last row, white to move: its step leaves the board.
    let mut pawn = state("P6k/8/8/8/8/8/8/7K", Color::White, "");
    assert!(!pawn.is_playable());
    // The same pawn with black to move does not step.
    let mut waiting = state("P6k/8/8/8/8/8/8/7K", Color::Black, "");
    assert!(waiting.is_playable());
    // A castle the king can make, without a piece on the rook's corner.
    let mut rookless = state("4k3/8/8/8/8/8/8/4K3", Color::White, "K");
    assert!(!rookless.is_playable());
    // The same castling right with the king unable to castle (f1 is held).
    let mut blocked = state("4k3/8/8/8/8/8/8/4KB2", Color::White, "K");
    assert!(blocked.is_playable());
}

#[test]
fn first_engine_orders_moves_for_the_search() {
    let m = |captured: Option<Piece>, promotion: Option<PieceType>| bogochess::chess::Move {
        t: MoveType::Normal,
        origin: Position::new(1, 0),
        destination: Position::new(0, 0),
        captured,
        promotion,
        previous_castlings: Vec::new(),
        previous_en_passant: None,
    };
    let queen = m(None, Some(PieceType::Queen));
    let knight = m(None, Some(PieceType::Knight));
    let takes_rook = m(Some(Piece::new(PieceType::Rook, Color::Black)), None);
    let takes_pawn = m(Some(Piece::new(PieceType::Pawn, Color::Black)), None);
    let quiet = m(None, None);
    assert_eq!(compare_moves(&queen, &knight), Ordering::Less);
    assert_eq!(compare_moves(&knight, &queen), Ordering::Greater);
    assert_eq!(compare_moves(&knight, &takes_rook), Ordering::Less);
    assert_eq!(compare_moves(&takes_rook, &takes_pawn), Ordering::Less);
    assert_eq!(compare_moves(&quiet, &takes_pawn), Ordering::Greater);
    assert_eq!(compare_moves(&quiet, &quiet), Ordering::Less);
}
