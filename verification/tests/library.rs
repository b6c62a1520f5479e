// Scenarios and laws of the library on concrete positions.

use bogochess::engine::model::{BitBoard, Castling, Color, Move, MoveType, PieceType, Square};
use bogochess::engine::search::{compare_moves, SearchOptions};
use bogochess::engine::transposition::{TranspositionTable, TranspositionType, ZobristValues};
use std::cmp::Ordering;
use bogochess::uci::commands::{self, GUICommand};
use bogochess::uci::fen::{self, INITIAL_FEN};
use bogochess::uci::text::{parse_number, split_words};
use bogochess::utils::perft;

const KIWIPETE: &str = "r3k2r/p1ppqpb1/bn2pnp1/3PN3/1p2P3/2N2Q1p/PPPBBPPP/R3K2R w KQkq - 0 1";

fn names(moves: &[Move]) -> Vec<String> {
    let mut result: Vec<String> = moves.iter().map(|m| m.to_string()).collect();
    result.sort();
    result
}

#[test]
fn initial_position_is_read() {
    let g = fen::parse(INITIAL_FEN).unwrap();
    assert_eq!(g.board.pieces[0].0, 0x00FF_0000_0000_FF00);
    assert_eq!(g.board.pieces[1].0, 0x4200_0000_0000_0042);
    assert_eq!(g.board.pieces[2].0, 0x2400_0000_0000_0024);
    assert_eq!(g.board.pieces[3].0, 0x8100_0000_0000_0081);
    assert_eq!(g.board.pieces[4].0, 0x0800_0000_0000_0008);
    assert_eq!(g.board.pieces[5].0, 0x1000_0000_0000_0010);
    assert_eq!(g.board.colors[0].0, 0x0000_0000_0000_FFFF);
    assert_eq!(g.board.colors[1].0, 0xFFFF_0000_0000_0000);
    assert_eq!(g.current_player, Color::White);
    assert_eq!(g.castling, Castling(15));
    assert_eq!(g.en_passant, None);
    assert_eq!(g.halfmoves, 0);
    assert!(!g.ended);
    assert!(g.is_valid());
}

#[test]
fn fen_fields_are_read() {
    let g = fen::parse("4k3/8/8/3pP3/8/8/8/4K3 w q d6 +12 40").unwrap();
    assert_eq!(g.current_player, Color::White);
    assert_eq!(g.castling, Castling(4));
    assert_eq!(g.en_passant, Some(Square(43)));
    assert_eq!(g.halfmoves, 12);
}

#[test]
fn fen_errors() {
    assert!(fen::parse("8/8/8/8/8/8/8/8 w - - 0").is_none());
    assert!(fen::parse("8/8/8/8/8/8/8/8 w - - 0 1 2").is_none());
    assert!(fen::parse("8/8/8/8/8/8/8/8 x - - 0 1").is_none());
    assert!(fen::parse("8/8/8/8/8/8/8/8 w - e9 0 1").is_none());
    assert!(fen::parse("8/8/8/8/8/8/8/8 w - - 256 1").is_none());
    assert!(fen::parse("8/8/8/8/8/8/8/8 w - - -1 1").is_none());
    assert!(fen::parse("8/8/8/8/8/8/8/7X w - - 0 1").is_none());
    assert!(fen::parse("8/8/8/8/8/8/8/8/p w - - 0 1").is_none());
    assert!(fen::parse("").is_none());
}

#[test]
fn fen_ignores_unknown_castling_letters() {
    let g = fen::parse("r3k2r/8/8/8/8/8/8/R3K2R b Kxk - 3 9").unwrap();
    assert_eq!(g.castling, Castling(10));
    assert_eq!(g.current_player, Color::Black);
}

#[test]
fn moves_are_named() {
    let g = fen::parse(INITIAL_FEN).unwrap();
    let mut g = g;
    let moves = g.legal_moves();
    let n = names(&moves);
    assert_eq!(n.len(), 20);
    assert!(n.contains(&"e2e4".to_string()));
    assert!(n.contains(&"g1f3".to_string()));
    assert_eq!(Square(4).name(), vec!['e', '1']);
    assert_eq!(Square(63).name(), vec!['h', '8']);
    assert_eq!(PieceType::Queen.letter(), 'q');
}

#[test]
fn promotions_are_generated_and_named() {
    let mut g = fen::parse("8/P6k/8/8/8/8/8/K7 w - - 0 1").unwrap();
    let n = names(&g.legal_moves());
    assert!(n.contains(&"a7a8q".to_string()));
    assert!(n.contains(&"a7a8n".to_string()));
    assert!(n.contains(&"a7a8b".to_string()));
    assert!(n.contains(&"a7a8r".to_string()));
    assert!(!n.contains(&"a7a8".to_string()));
}

#[test]
fn moves_are_played_by_name() {
    let g = fen::parse_with_moves(INITIAL_FEN, &["e2e4", "c7c5", "g1f3"]).unwrap();
    assert_eq!(g.current_player, Color::Black);
    assert_eq!(g.en_passant, None);
    assert!(g.board.pieces[1].0 & (1u64 << 21) != 0);
    let g = fen::parse_with_moves(INITIAL_FEN, &["e2e4"]).unwrap();
    assert_eq!(g.en_passant, Some(Square(20)));
    assert!(fen::parse_with_moves(INITIAL_FEN, &["e2e5"]).is_none());
    assert!(fen::parse_with_moves(INITIAL_FEN, &["e2e4", "e2e4"]).is_none());
    let g = fen::parse_with_moves("8/P6k/8/8/8/8/8/K7 w - - 0 1", &["a7a8n"]).unwrap();
    assert!(g.board.pieces[1].0 & (1u64 << 56) != 0);
    assert_eq!(g.board.pieces[0].0, 0);
}

#[test]
fn undo_restores_every_move() {
    let mut g = fen::parse(KIWIPETE).unwrap();
    let before = g.clone();
    let moves = g.legal_moves();
    assert_eq!(moves.len(), 48);
    for m in moves {
        g.apply(&m);
        assert!(g.is_valid());
        g.undo(&m);
        assert_eq!(g, before);
    }
}

#[test]
fn pseudo_legal_moves_include_the_legal_ones() {
    let mut g = fen::parse("4k3/8/8/8/8/8/4r3/4K3 w - - 0 1").unwrap();
    let legal = names(&g.legal_moves());
    let pseudo = names(&g.pseudo_legal_moves());
    assert!(pseudo.len() > legal.len());
    for m in &legal {
        assert!(pseudo.contains(m));
    }
    assert_eq!(legal, vec!["e1d1", "e1e2", "e1f1"]);
}

#[test]
fn check_is_seen() {
    let mut g = fen::parse("4k3/8/8/8/8/8/4r3/4K3 w - - 0 1").unwrap();
    assert!(g.in_check());
    let mut g = fen::parse(INITIAL_FEN).unwrap();
    assert!(!g.in_check());
}

#[test]
fn castling_moves_rook_and_clears_flags() {
    let g = fen::parse_with_moves("r3k2r/8/8/8/8/8/8/R3K2R w KQkq - 0 1", &["e1g1"]).unwrap();
    assert!(g.board.pieces[5].0 & (1u64 << 6) != 0);
    assert!(g.board.pieces[3].0 & (1u64 << 5) != 0);
    assert!(g.board.pieces[3].0 & (1u64 << 7) == 0);
    assert_eq!(g.castling, Castling(12));
}

#[test]
fn perft_of_one_ply_counts_the_legal_moves() {
    let mut g = fen::parse(KIWIPETE).unwrap();
    let n = g.legal_moves().len() as u32;
    assert_eq!(perft::perft(&mut g, 1), n);
    assert_eq!(perft::perft(&mut g, 0), 1);
}

#[test]
fn ended_games_have_no_moves() {
    let mut g = fen::parse(INITIAL_FEN).unwrap();
    g.ended = true;
    assert!(g.legal_moves().is_empty());
    assert_eq!(perft::perft(&mut g, 2), 0);
}

#[test]
fn move_fields_round_trip() {
    let m = Move::new(
        Square(12),
        Square(28),
        MoveType::TwoSquare,
        PieceType::Pawn,
        None,
        None,
        Some(Square(44)),
        Castling(9),
    );
    assert_eq!(m.origin(), Square(12));
    assert_eq!(m.destination(), Square(28));
    assert_eq!(m.t(), MoveType::TwoSquare);
    assert_eq!(m.piece(), PieceType::Pawn);
    assert_eq!(m.captured(), None);
    assert_eq!(m.promoted(), None);
    assert_eq!(m.previous_en_passant(), Some(Square(44)));
    assert_eq!(m.previous_castling(), Castling(9));
    assert_eq!(m.to_string(), "e2e4");
    let p = Move::new(
        Square(52),
        Square(61),
        MoveType::Normal,
        PieceType::Pawn,
        Some(PieceType::Rook),
        Some(PieceType::Queen),
        None,
        Castling(0),
    );
    assert_eq!(p.captured(), Some(PieceType::Rook));
    assert_eq!(p.promoted(), Some(PieceType::Queen));
    assert_eq!(p.to_string(), "e7f8q");
}

#[test]
fn bitboards() {
    assert_eq!(BitBoard::row(0).0, 0xFF);
    assert_eq!(BitBoard::col(7).0, 0x8080_8080_8080_8080);
    assert_eq!(BitBoard(0x0F).shift_row_forward(1).0, 0x0F00);
    assert_eq!(BitBoard(0x0F00).shift_row_backward(1).0, 0x0F);
    assert_eq!(BitBoard(0x01).shift_column_forward(2).0, 0x04);
    assert_eq!(BitBoard(0x04).shift_column_backward(2).0, 0x01);
    assert!(BitBoard(0).empty());
    assert!(!BitBoard(8).empty());
    let mut b = BitBoard(0b1010);
    assert_eq!(b.next(), Some(Square(1)));
    assert_eq!(b.next(), Some(Square(3)));
    assert_eq!(b.next(), None);
    assert_eq!(BitBoard(6).bitand(BitBoard(3)).0, 2);
    assert_eq!(BitBoard(6).bitor(BitBoard(3)).0, 7);
    assert_eq!(BitBoard(0).not().0, u64::MAX);
    let mut c = BitBoard(0b1100);
    c.bitand_assign(BitBoard(0b0110));
    assert_eq!(c.0, 0b0100);
    c.bitor_assign(BitBoard(0b0001));
    assert_eq!(c.0, 0b0101);
    assert_eq!(Square(9).bitboard().0, 1 << 9);
    assert_eq!(Square(20).shift(-8), Square(12));
    assert_eq!(Square(27).row(), 3);
    assert_eq!(Square(27).col(), 3);
}

#[test]
fn castling_flags() {
    let mut c = Castling::white_queen().union(Castling::black_king());
    assert_eq!(c.bits(), 9);
    assert!(c.contains(Castling::black_king()));
    c.remove(Castling::black_king());
    assert_eq!(c, Castling(1));
    assert_eq!(Castling::from_bits(16), None);
    assert_eq!(Castling::from_bits(15), Some(Castling(15)));
}

#[test]
fn search_time_splits_the_clock() {
    let mut o = SearchOptions::new();
    assert_eq!(o.white_time, None);
    o.white_time = Some(1000);
    o.black_time = Some(2050);
    o.moves_to_go = Some(9);
    assert_eq!(o.search_time(Color::White), 100);
    assert_eq!(o.search_time(Color::Black), 205);
}

#[test]
fn words_and_numbers() {
    let chars: Vec<char> = "  go\twtime 300 \n".chars().collect();
    let w = split_words(&chars);
    assert_eq!(w, vec![vec!['g', 'o'], vec!['w', 't', 'i', 'm', 'e'], vec!['3', '0', '0']]);
    assert_eq!(parse_number(&vec!['2', '5', '5'], 255), Some(255));
    assert_eq!(parse_number(&vec!['2', '5', '6'], 255), None);
    assert_eq!(parse_number(&vec!['+', '7'], 255), Some(7));
    assert_eq!(parse_number(&vec!['+'], 255), None);
    assert_eq!(parse_number(&vec![], 255), None);
}

#[test]
fn commands_are_read() {
    assert!(matches!(commands::parse("uci\n"), Some(GUICommand::UCI)));
    assert!(matches!(commands::parse("isready"), Some(GUICommand::IsReady)));
    assert!(matches!(commands::parse("quit"), Some(GUICommand::Quit)));
    assert!(commands::parse("hello world").is_none());
    assert!(commands::parse("").is_none());
    assert!(commands::parse("  \t \n").is_none());
    assert!(matches!(commands::parse("go perft 4"), Some(GUICommand::Perft(4))));
    assert!(commands::parse("go perft x").is_none());
    match commands::parse("go wtime 1000 btime x winc 5 movestogo 10 binc") {
        Some(GUICommand::Go(o)) => {
            assert_eq!(o.white_time, Some(1000));
            assert_eq!(o.black_time, None);
            assert_eq!(o.white_increment, Some(5));
            assert_eq!(o.black_increment, None);
            assert_eq!(o.moves_to_go, Some(10));
        },
        _ => panic!("expected a search"),
    }
}

#[test]
fn position_commands_are_read() {
    match commands::parse("position startpos moves e2e4 e7e5") {
        Some(GUICommand::Position(g)) => {
            assert_eq!(g.current_player, Color::White);
            assert_eq!(g.en_passant, Some(Square(44)));
        },
        _ => panic!("expected a position"),
    }
    match commands::parse("position fen 4k3/8/8/8/8/8/8/4K3 b - - 5 30") {
        Some(GUICommand::Position(g)) => {
            assert_eq!(g.current_player, Color::Black);
            assert_eq!(g.halfmoves, 5);
        },
        _ => panic!("expected a position"),
    }
    match commands::parse("position fen 4k3/8/8/8/8/8/8/4K3 w - - 0 1 moves e1d1") {
        Some(GUICommand::Position(g)) => {
            assert!(g.board.pieces[5].0 & (1u64 << 3) != 0);
        },
        _ => panic!("expected a position"),
    }
    assert!(commands::parse("position").is_none());
    assert!(commands::parse("position startpos moves e2e5").is_none());
    assert!(commands::parse("position fen 4k3/8/8/8/8/8/8/4K3 w - -").is_none());
}

#[test]
fn moves_are_ordered_for_the_search() {
    let quiet = Move::new(Square(12), Square(20), MoveType::Normal, PieceType::Pawn, None, None, None, Castling(0));
    let other = Move::new(Square(1), Square(18), MoveType::Normal, PieceType::Knight, None, None, None, Castling(0));
    let takes_rook = Move::new(Square(12), Square(21), MoveType::Normal, PieceType::Pawn, Some(PieceType::Rook), None, None, Castling(0));
    let takes_pawn = Move::new(Square(12), Square(19), MoveType::Normal, PieceType::Pawn, Some(PieceType::Pawn), None, None, Castling(0));
    let promotes = Move::new(Square(52), Square(60), MoveType::Normal, PieceType::Pawn, None, Some(PieceType::Queen), None, Castling(0));
    let mut history = [[0u32; 64]; 64];
    history[1][18] = 5;
    assert_eq!(compare_moves(&None, &history, &promotes, &takes_rook), Ordering::Less);
    assert_eq!(compare_moves(&None, &history, &takes_pawn, &takes_rook), Ordering::Greater);
    assert_eq!(compare_moves(&None, &history, &takes_pawn, &quiet), Ordering::Less);
    assert_eq!(compare_moves(&None, &history, &quiet, &other), Ordering::Greater);
    assert_eq!(compare_moves(&None, &history, &quiet, &quiet), Ordering::Equal);
    assert_eq!(compare_moves(&Some(quiet), &history, &quiet, &promotes), Ordering::Less);
    assert_eq!(compare_moves(&Some(quiet), &history, &promotes, &quiet), Ordering::Greater);
}

#[test]
fn positions_are_hashed() {
    let z = ZobristValues::new(42);
    let again = ZobristValues::new(42);
    assert_eq!(z.current_player, again.current_player);
    assert_eq!(z.castling, again.castling);
    let g = fen::parse(INITIAL_FEN).unwrap();
    assert_eq!(z.hash(&g), z.current_player[0] ^ z.castling[15]);
    let g = fen::parse_with_moves(INITIAL_FEN, &["e2e4"]).unwrap();
    assert_eq!(z.hash(&g), z.current_player[1] ^ z.castling[15] ^ z.en_passant[4]);
}

#[test]
fn divide_splits_perft_by_first_move() {
    let mut g = fen::parse("r3k2r/p1ppqpb1/bn2pnp1/3PN3/1p2P3/2N2Q1p/PPPBBPPP/R3K2R w KQkq - 0 1").unwrap();
    let before = g.clone();
    let parts = perft::divide(&mut g, 2);
    assert_eq!(parts.len(), 48);
    let total: u32 = parts.iter().map(|p| p.1).sum();
    assert_eq!(total, 2039);
    assert_eq!(total, perft::perft(&mut g, 2));
    assert_eq!(g, before);
}

#[test]
fn squares_from_rows_and_columns() {
    assert_eq!(Square::from(3, 4), Square(28));
    assert!(Square::valid(7, 0));
    assert!(!Square::valid(8, 0));
    assert!(!Square::valid(0, -1));
}

#[test]
fn table_finds_what_it_stored() {
    let mut table: TranspositionTable<i32> = TranspositionTable::new(16);
    assert_eq!(table.items(), 0);
    assert!(table.get(5, 0).is_none());
    table.insert(5, 3, 7, None, TranspositionType::Exact);
    assert_eq!(table.items(), 1);
    let e = table.get(5, 3).unwrap();
    assert_eq!((e.hash, e.depth, e.value), (5, 3, 7));
    assert_eq!(e.t, TranspositionType::Exact);
    // Searched too shallowly, or another position in the same slot.
    assert!(table.get(5, 4).is_none());
    assert!(table.get(21, 1).is_none());
}

#[test]
fn table_keeps_deeper_searches() {
    let mut table: TranspositionTable<i32> = TranspositionTable::new(16);
    table.insert(5, 6, 1, None, TranspositionType::LowerBound);
    // Same slot, shallower: goes to the fresh half.
    table.insert(21, 2, 9, None, TranspositionType::UpperBound);
    assert_eq!(table.items(), 2);
    assert_eq!(table.get(5, 6).unwrap().value, 1);
    assert_eq!(table.get(21, 2).unwrap().value, 9);
    // A shallower search of the same position: the deeper one is found first.
    table.insert(5, 1, 3, None, TranspositionType::Exact);
    assert_eq!(table.items(), 2);
    assert_eq!(table.get(5, 1).unwrap().value, 1);
    assert!(table.get(21, 2).is_none());
    // Deeper or as deep: replaces the entry of the deep half.
    table.insert(37, 6, 4, None, TranspositionType::Exact);
    assert_eq!(table.items(), 2);
    assert_eq!(table.get(37, 6).unwrap().value, 4);
    assert!(table.get(5, 6).is_none());
    assert_eq!(table.get(5, 1).unwrap().value, 3);
}

#[test]
fn table_hashes_with_its_keys() {
    let table: TranspositionTable<i32> = TranspositionTable::new(1);
    let z = ZobristValues::new(42);
    let g = fen::parse(INITIAL_FEN).unwrap();
    assert_eq!(table.hash(&g), z.hash(&g));
    assert_eq!(table.size(), 1);
}

#[test]
fn playable_positions() {
    let mut g = fen::parse(INITIAL_FEN).unwrap();
    assert!(g.is_playable());
    let mut kiwipete = fen::parse(KIWIPETE).unwrap();
    assert!(kiwipete.is_playable());
    // Black, who has just moved, has left its king attacked by the rook.
    let mut exposed = fen::parse("4k3/8/8/8/8/8/8/4R2K w - - 0 1").unwrap();
    assert!(!exposed.is_playable());
    // The same position with black to move is an ordinary check.
    let mut checked = fen::parse("4k3/8/8/8/8/8/8/4R2K b - - 0 1").unwrap();
    assert!(checked.is_playable());
}

#[test]
fn moves_order_by_promotion_then_capture() {
    let to_queen = Move::new(Square(52), Square(60), MoveType::Normal, PieceType::Pawn, None, Some(PieceType::Queen), None, Castling(0));
    let to_knight = Move::new(Square(52), Square(60), MoveType::Normal, PieceType::Pawn, None, Some(PieceType::Knight), None, Castling(0));
    let takes_rook = Move::new(Square(1), Square(18), MoveType::Normal, PieceType::Knight, Some(PieceType::Rook), None, None, Castling(0));
    let takes_pawn = Move::new(Square(6), Square(21), MoveType::Normal, PieceType::Knight, Some(PieceType::Pawn), None, None, Castling(0));
    let quiet = Move::new(Square(6), Square(21), MoveType::Normal, PieceType::Knight, None, None, None, Castling(0));
    let other = Move::new(Square(1), Square(18), MoveType::Normal, PieceType::Knight, None, None, None, Castling(0));
    assert_eq!(to_queen.partial_cmp(&to_knight), Some(Ordering::Less));
    assert_eq!(to_knight.partial_cmp(&to_queen), Some(Ordering::Greater));
    assert_eq!(to_knight.partial_cmp(&takes_rook), Some(Ordering::Less));
    assert_eq!(takes_rook.partial_cmp(&takes_pawn), Some(Ordering::Less));
    assert_eq!(quiet.partial_cmp(&takes_pawn), Some(Ordering::Greater));
    assert_eq!(quiet.partial_cmp(&other), None);
    assert_eq!(quiet.partial_cmp(&quiet), None);
}

#[test]
fn square_names_read_back() {
    for s in 0..64usize {
        let name: String = Square(s).name().iter().collect();
        let record = format!("4k3/8/8/8/8/8/8/4K3 w - {} 0 1", name);
        let g = fen::parse(&record).unwrap();
        assert_eq!(g.en_passant, Some(Square(s)));
    }
    assert!(fen::parse("4k3/8/8/8/8/8/8/4K3 w - i3 0 1").is_none());
    assert!(fen::parse("4k3/8/8/8/8/8/8/4K3 w - e9 0 1").is_none());
    assert!(fen::parse("4k3/8/8/8/8/8/8/4K3 w - e0 0 1").is_none());
    assert!(fen::parse("4k3/8/8/8/8/8/8/4K3 w - e33 0 1").is_none());
}

#[test]
fn parse_square_reads_square_names() {
    for s in 0..64usize {
        assert_eq!(fen::parse_square(&Square(s).name()), Some(Square(s)));
    }
    assert_eq!(fen::parse_square(&vec!['e', '3']), Some(Square(20)));
    assert!(fen::parse_square(&vec!['e']).is_none());
    assert!(fen::parse_square(&vec!['e', '3', '4']).is_none());
    assert!(fen::parse_square(&vec!['i', '3']).is_none());
    assert!(fen::parse_square(&vec!['e', '0']).is_none());
    assert!(fen::parse_square(&vec!['e', '9']).is_none());
}

fn phase_of(m: &Move) -> u32 {
    if m.t() == MoveType::Castle {
        7
    } else {
        match m.piece() {
            PieceType::Pawn => if m.t() == MoveType::EnPassant || m.captured().is_some() { 1 } else { 0 },
            PieceType::Knight => 2,
            PieceType::Bishop => 3,
            PieceType::Rook => 4,
            PieceType::Queen => 5,
            PieceType::King => 6,
        }
    }
}

#[test]
fn moves_come_phase_after_phase() {
    let mut g = fen::parse(KIWIPETE).unwrap();
    let pseudo = g.pseudo_legal_moves();
    assert!(pseudo.windows(2).all(|w| phase_of(&w[0]) <= phase_of(&w[1])));
    assert_eq!(phase_of(pseudo.last().unwrap()), 7);
    let legal = g.legal_moves();
    // The legal moves are the pseudo-legal ones kept, in the same order.
    let kept: Vec<Move> = pseudo.iter().copied().filter(|m| legal.contains(m)).collect();
    assert_eq!(kept, legal);
    let parts = perft::divide(&mut g, 1);
    let firsts: Vec<Move> = parts.iter().map(|p| p.0).collect();
    assert_eq!(firsts, legal);
}

#[test]
fn positions_are_hashed_with_their_pieces() {
    let z = ZobristValues::new(42);
    let g = fen::parse(INITIAL_FEN).unwrap();
    let mut expected = z.hash(&g);
    for i in 0..64usize {
        for t in 0..6usize {
            if g.board.pieces[t].0 >> i & 1 == 1 {
                let c = if g.board.colors[0].0 >> i & 1 == 1 { 0 } else { 1 };
                expected ^= z.piece_square[i / 8][i % 8][t][c];
            }
        }
    }
    assert_eq!(g.hash(&z), expected);
    // The same side to move, flags and en-passant column, other pieces.
    let a = fen::parse("4k3/8/8/8/8/8/8/4K3 w - - 0 1").unwrap();
    let b = fen::parse("4k3/8/8/8/8/8/8/3K4 w - - 0 1").unwrap();
    assert_eq!(z.hash(&a), z.hash(&b));
    assert_ne!(a.hash(&z), b.hash(&z));
    assert_eq!(a.hash(&z) ^ b.hash(&z), z.piece_square[0][4][5][0] ^ z.piece_square[0][3][5][0]);
}
