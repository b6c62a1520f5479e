//! Forsyth-Edwards Notation: reading positions, and the long algebraic
//! notation of moves.
use vstd::prelude::*;

use crate::engine::model::{Board, Castling, Color, GameState, Move, PieceType, Square};
use crate::engine::model::bits::{with_bit};
use crate::engine::model::game_state_impl::{GameView, apply_view, lemma_codes_in_range};
use crate::engine::rules::playable::lemma_pseudo_legal_unique;
use crate::engine::rules::spec::{pseudo_legal, wf};
use crate::engine::rules::lemma_pseudo_legal_consistent;
use crate::uci::text::{
    same_chars, chars_of, is_digit, parse_number, parse_unsigned, split_words, words,
};

verus! {

/// The starting position.
pub const INITIAL_FEN: &'static str = "rnbqkbnr/pppppppp/8/8/8/8/PPPPPPPP/RNBQKBNR w KQkq - 0 1";

/// The piece type a board character names, in either case.
pub open spec fn piece_of_char(c: char) -> Option<PieceType> {
    if c == 'P' || c == 'p' {
        Some(PieceType::Pawn)
    } else if c == 'N' || c == 'n' {
        Some(PieceType::Knight)
    } else if c == 'B' || c == 'b' {
        Some(PieceType::Bishop)
    } else if c == 'R' || c == 'r' {
        Some(PieceType::Rook)
    } else if c == 'Q' || c == 'q' {
        Some(PieceType::Queen)
    } else if c == 'K' || c == 'k' {
        Some(PieceType::King)
    } else {
        None
    }
}

/// The state of reading the board field: whether it is still well-formed,
/// the index of the current square, and the bitboards read so far.
pub struct BoardRead {
    pub ok: bool,
    pub pos: int,
    pub pieces: Seq<u64>,
    pub colors: Seq<u64>,
}

/// Nothing read yet: the cursor on a8, every bitboard empty.
pub open spec fn board_read_start() -> BoardRead {
    BoardRead { ok: true, pos: 56, pieces: seq![0u64, 0u64, 0u64, 0u64, 0u64, 0u64], colors: seq![0u64, 0u64] }
}

/// Reading one character of the board field: a digit skips that many
/// squares, `/` goes down to the start of the row below (sixteen squares
/// back from the end of the row just read), and a piece letter (upper case
/// for white) puts that piece on the current square and moves on. The cursor
/// must stay within an `i8`, and a piece must land on the board; any other
/// character, or a step that breaks those bounds, makes the field invalid.
pub open spec fn board_step(st: BoardRead, c: char) -> BoardRead {
    if !st.ok {
        st
    } else if is_digit(c) {
        let p = st.pos + (c as int - '0' as int);
        if p <= 127 {
            BoardRead { pos: p, ..st }
        } else {
            BoardRead { ok: false, ..st }
        }
    } else if c == '/' {
        let p = st.pos - 16;
        if p >= -128 {
            BoardRead { pos: p, ..st }
        } else {
            BoardRead { ok: false, ..st }
        }
    } else {
        match piece_of_char(c) {
            Some(t) => if 0 <= st.pos < 64 {
                let k = if 'A' <= c <= 'Z' {
                    0int
                } else {
                    1int
                };
                BoardRead {
                    pos: st.pos + 1,
                    pieces: st.pieces.update(t.idx(), with_bit(st.pieces[t.idx()], st.pos)),
                    colors: st.colors.update(k, with_bit(st.colors[k], st.pos)),
                    ..st
                }
            } else {
                BoardRead { ok: false, ..st }
            },
            None => BoardRead { ok: false, ..st },
        }
    }
}

/// The bitboards that a board field describes, or `None` when it is not
/// well-formed.
pub open spec fn board_spec(s: Seq<char>) -> Option<(Seq<u64>, Seq<u64>)> {
    let st = s.fold_left(board_read_start(), |st: BoardRead, c: char| board_step(st, c));
    if st.ok {
        Some((st.pieces, st.colors))
    } else {
        None
    }
}

/// The castling flag that a character of the castling field names, if any.
pub open spec fn castling_piece(c: char) -> Option<u8> {
    if c == 'Q' {
        Some(1u8)
    } else if c == 'K' {
        Some(2u8)
    } else if c == 'q' {
        Some(4u8)
    } else if c == 'k' {
        Some(8u8)
    } else {
        None
    }
}

/// Adds the flag a character names, if it names one.
pub open spec fn castling_step(acc: u8, c: char) -> u8 {
    match castling_piece(c) {
        Some(f) => acc | f,
        None => acc,
    }
}

/// The castling flags of the castling field: those its characters name;
/// other characters are ignored.
pub open spec fn castling_spec(s: Seq<char>) -> u8 {
    s.fold_left(0u8, |acc: u8, c: char| castling_step(acc, c))
}

/// The square a name such as `e3` gives: a column letter from `a` to `h`
/// and a row digit from `1` to `8`.
pub open spec fn square_spec(s: Seq<char>) -> Option<int> {
    if s.len() == 2 && 'a' <= s[0] <= 'h' && '1' <= s[1] <= '8' {
        Some((s[1] as int - '1' as int) * 8 + (s[0] as int - 'a' as int))
    } else {
        None
    }
}

/// The en-passant field: `-` for none, or a square.
pub open spec fn en_passant_spec(s: Seq<char>) -> Option<Option<int>> {
    if s == seq!['-'] {
        Some(None)
    } else {
        match square_spec(s) {
            Some(e) => Some(Some(e)),
            None => None,
        }
    }
}

/// The side to move: `w` or `b`.
pub open spec fn color_spec(s: Seq<char>) -> Option<Color> {
    if s == seq!['w'] {
        Some(Color::White)
    } else if s == seq!['b'] {
        Some(Color::Black)
    } else {
        None
    }
}

/// The position a FEN record describes: six whitespace-separated fields
/// (board, side to move, castling, en passant, halfmove clock and the move
/// number, which is not read), or `None` when a field is not well-formed.
pub open spec fn fen_spec(s: Seq<char>) -> Option<GameView> {
    fields_spec(words(s))
}

/// The position the six fields of a FEN record describe.
pub open spec fn fields_spec(w: Seq<Seq<char>>) -> Option<GameView> {
    if w.len() != 6 {
        None
    } else {
        match (board_spec(w[0]), color_spec(w[1]), en_passant_spec(w[3]), parse_unsigned(w[4], 255)) {
            (Some(b), Some(c), Some(e), Some(h)) => Some(
                GameView {
                    pieces: b.0,
                    colors: b.1,
                    player: c,
                    castling: castling_spec(w[2]),
                    en_passant: e,
                    halfmoves: h as u8,
                    ended: false,
                },
            ),
            _ => None,
        }
    }
}

/// Reads the board field.
fn parse_board(fen: &Vec<char>) -> (r: Option<Board>)
    ensures
        r is Some <==> board_spec(fen@) is Some,
        r matches Some(b) ==> {
            &&& Seq::new(6, |k: int| b.pieces[k].0) == (board_spec(fen@)->0).0
            &&& Seq::new(2, |k: int| b.colors[k].0) == (board_spec(fen@)->0).1
        },
{
    let mut board = Board::new();
    let mut pos: i32 = 56;
    let mut i: usize = 0;
    let ghost step = |st: BoardRead, c: char| board_step(st, c);
    proof {
        assert(fen@.take(0).fold_left(board_read_start(), step) == board_read_start());
        assert(Seq::new(6, |k: int| board.pieces[k].0) =~= board_read_start().pieces);
        assert(Seq::new(2, |k: int| board.colors[k].0) =~= board_read_start().colors);
    }
    while i < fen.len()
        invariant
            i <= fen.len(),
            -128 <= pos <= 127,
            step == (|st: BoardRead, c: char| board_step(st, c)),
            ({
                let st = fen@.take(i as int).fold_left(board_read_start(), step);
                &&& st.ok
                &&& st.pos == pos
                &&& st.pieces == Seq::new(6, |k: int| board.pieces[k].0)
                &&& st.colors == Seq::new(2, |k: int| board.colors[k].0)
            }),
        decreases fen.len() - i,
    {
        let ghost before = fen@.take(i as int).fold_left(board_read_start(), step);
        proof {
            assert(fen@.take(i + 1).drop_last() =~= fen@.take(i as int));
            assert(fen@.take(i + 1).last() == fen@[i as int]);
        }
        let c = fen[i];
        if '0' <= c && c <= '9' {
            let d = (c as u32 - '0' as u32) as i32;
            if pos + d > 127 {
                proof {
                    lemma_board_fails(fen@, i as int);
                }
                return None;
            }
            pos = pos + d;
        } else if c == '/' {
            if pos - 16 < -128 {
                proof {
                    lemma_board_fails(fen@, i as int);
                }
                return None;
            }
            pos = pos - 16;
        } else {
            if pos < 0 || pos >= 64 {
                proof {
                    lemma_board_fails(fen@, i as int);
                }
                return None;
            }
            let square = Square(pos as usize);
            if !parse_piece(&mut board, square, c) {
                proof {
                    lemma_board_fails(fen@, i as int);
                }
                return None;
            }
            pos = pos + 1;
        }
        proof {
            let after = fen@.take(i + 1).fold_left(board_read_start(), step);
            assert(after == board_step(before, c));
            assert(after.pieces =~= Seq::new(6, |k: int| board.pieces[k].0));
            assert(after.colors =~= Seq::new(2, |k: int| board.colors[k].0));
        }
        i += 1;
    }
    proof {
        assert(fen@.take(i as int) =~= fen@);
    }
    Some(board)
}

/// The color index a board character gives: upper case for white.
pub open spec fn color_of_char(c: char) -> int {
    if 'A' <= c <= 'Z' {
        0
    } else {
        1
    }
}

/// Marks the square as held by the color of the character, then, when the
/// character names a piece type, as held by that type. Whether it names one
/// is returned.
fn parse_piece(board: &mut Board, square: Square, c: char) -> (r: bool)
    requires
        square.0 < 64,
    ensures
        r == piece_of_char(c) is Some,
        Seq::new(2, |k: int| final(board).colors[k].0) == Seq::new(2, |k: int| old(board).colors[k].0).update(
            color_of_char(c),
            with_bit(old(board).colors[color_of_char(c)].0, square.0 as int),
        ),
        r ==> Seq::new(6, |k: int| final(board).pieces[k].0) == Seq::new(6, |k: int| old(board).pieces[k].0).update(
            piece_of_char(c)->0.idx(),
            with_bit(old(board).pieces[piece_of_char(c)->0.idx()].0, square.0 as int),
        ),
{
    let ghost colors = Seq::new(2, |k: int| board.colors[k].0);
    let ghost pieces = Seq::new(6, |k: int| board.pieces[k].0);
    let k: usize = if 'A' <= c && c <= 'Z' {
        0
    } else {
        1
    };
    board.colors[k] = board.colors[k].bitor(square.bitboard());
    proof {
        assert(Seq::new(2, |j: int| board.colors[j].0) =~= colors.update(color_of_char(c), with_bit(colors[color_of_char(c)], square.0 as int)));
    }
    let t = if c == 'P' || c == 'p' {
        PieceType::Pawn
    } else if c == 'N' || c == 'n' {
        PieceType::Knight
    } else if c == 'B' || c == 'b' {
        PieceType::Bishop
    } else if c == 'R' || c == 'r' {
        PieceType::Rook
    } else if c == 'Q' || c == 'q' {
        PieceType::Queen
    } else if c == 'K' || c == 'k' {
        PieceType::King
    } else {
        return false;
    };
    board.pieces[t.index()] = board.pieces[t.index()].bitor(square.bitboard());
    proof {
        assert(Seq::new(6, |j: int| board.pieces[j].0) =~= pieces.update(t.idx(), with_bit(pieces[t.idx()], square.0 as int)));
    }
    true
}

/// Once the board field is found invalid it stays invalid.
proof fn lemma_board_fails(s: Seq<char>, i: int)
    requires
        0 <= i < s.len(),
        !board_step(s.take(i).fold_left(board_read_start(), |st: BoardRead, c: char| board_step(st, c)), s[i]).ok,
    ensures
        board_spec(s) is None,
{
    let step = |st: BoardRead, c: char| board_step(st, c);
    assert(s.take(i + 1).drop_last() =~= s.take(i));
    assert(!s.take(i + 1).fold_left(board_read_start(), step).ok);
    lemma_stays_failed(s, i + 1);
    assert(s.take(s.len() as int) =~= s);
}

proof fn lemma_stays_failed(s: Seq<char>, i: int)
    requires
        0 <= i <= s.len(),
        !s.take(i).fold_left(board_read_start(), |st: BoardRead, c: char| board_step(st, c)).ok,
    ensures
        !s.take(s.len() as int).fold_left(board_read_start(), |st: BoardRead, c: char| board_step(st, c)).ok,
    decreases s.len() - i,
{
    if i < s.len() {
        assert(s.take(i + 1).drop_last() =~= s.take(i));
        lemma_stays_failed(s, i + 1);
    }
}

/// The castling flag a character names, if it names one.
fn parse_castling_piece(c: char) -> (r: Option<Castling>)
    ensures
        r is Some <==> castling_piece(c) is Some,
        r matches Some(f) ==> f.0 == castling_piece(c)->0,
{
    if c == 'Q' {
        Some(Castling::white_queen())
    } else if c == 'K' {
        Some(Castling::white_king())
    } else if c == 'q' {
        Some(Castling::black_queen())
    } else if c == 'k' {
        Some(Castling::black_king())
    } else {
        None
    }
}

/// Reads the castling field.
fn parse_castling(s: &Vec<char>) -> (r: Castling)
    ensures
        r.0 == castling_spec(s@),
{
    let mut acc = Castling::empty();
    let mut i: usize = 0;
    let ghost step = |acc: u8, c: char| castling_step(acc, c);
    while i < s.len()
        invariant
            i <= s.len(),
            step == (|acc: u8, c: char| castling_step(acc, c)),
            acc.0 == s@.take(i as int).fold_left(0u8, step),
        decreases s.len() - i,
    {
        proof {
            assert(s@.take(i + 1).drop_last() =~= s@.take(i as int));
        }
        if let Some(flag) = parse_castling_piece(s[i]) {
            acc = acc.union(flag);
        }
        i += 1;
    }
    proof {
        assert(s@.take(i as int) =~= s@);
    }
    acc
}

/// Reads a square name such as `e3`.
pub fn parse_square(s: &Vec<char>) -> (r: Option<Square>)
    ensures
        r is Some <==> square_spec(s@) is Some,
        r matches Some(q) ==> q.0 == square_spec(s@)->0,
{
    if s.len() != 2 {
        return None;
    }
    let c = s[0];
    let d = s[1];
    if !('a' <= c && c <= 'h') {
        return None;
    }
    if !('1' <= d && d <= '8') {
        return None;
    }
    let column = (c as u32 - 'a' as u32) as usize;
    let row = (d as u32 - '1' as u32) as usize;
    Some(Square::new(row * 8 + column))
}

/// Whether a word is the single character `c`.
fn is_single(s: &Vec<char>, c: char) -> (r: bool)
    ensures
        r == (s@ == seq![c]),
{
    if s.len() == 1 && s[0] == c {
        assert(s@ =~= seq![c]);
        true
    } else {
        proof {
            if s@ == seq![c] {
                assert(s@.len() == 1 && s@[0] == c);
            }
        }
        false
    }
}

/// Reads a position in Forsyth-Edwards Notation. The move number is not
/// read, and the game is taken as not ended.
pub fn parse(fen: &str) -> (r: Option<GameState>)
    ensures
        r is Some <==> fen_spec(fen@) is Some,
        r matches Some(g) ==> g@ == fen_spec(fen@)->0,
{
    let chars = chars_of(fen);
    let fields = split_words(&chars);
    parse_fields(&fields)
}

/// Reads a position from the fields of a FEN record.
pub fn parse_fields(fields: &Vec<Vec<char>>) -> (r: Option<GameState>)
    ensures
        r is Some <==> fields_spec(texts(fields@)) is Some,
        r matches Some(g) ==> g@ == fields_spec(texts(fields@))->0,
{
    let ghost w = texts(fields@);
    if fields.len() != 6 {
        return None;
    }
    proof {
        assert forall|k: int| 0 <= k < 6 implies fields@[k]@ == w[k] by {}
    }
    let board = match parse_board(&fields[0]) {
        Some(b) => b,
        None => return None,
    };
    let active_color = if is_single(&fields[1], 'w') {
        Color::White
    } else if is_single(&fields[1], 'b') {
        Color::Black
    } else {
        return None;
    };
    let castling = parse_castling(&fields[2]);
    let en_passant = if is_single(&fields[3], '-') {
        None
    } else {
        match parse_square(&fields[3]) {
            Some(q) => Some(q),
            None => return None,
        }
    };
    let halfmoves = match parse_number(&fields[4], 255) {
        Some(h) => h as u8,
        None => return None,
    };
    let g = GameState {
        board,
        ended: false,
        current_player: active_color,
        castling,
        en_passant,
        halfmoves,
    };
    proof {
        let b = board_spec(w[0])->0;
        assert(g@.pieces =~= b.0);
        assert(g@.colors =~= b.1);
    }
    Some(g)
}

/// The contents of a list of texts.
pub open spec fn texts(v: Seq<Vec<char>>) -> Seq<Seq<char>> {
    v.map_values(|w: Vec<char>| w@)
}

/// The contents of a list of string slices.
pub open spec fn strs(v: Seq<&str>) -> Seq<Seq<char>> {
    v.map_values(|s: &str| s@)
}

/// The name of a square: its column letter and its row digit, such as `e3`.
pub open spec fn square_name(s: int) -> Seq<char> {
    seq![(97 + s % 8) as char, (49 + s / 8) as char]
}

/// Reading back the name of a square gives the square.
pub proof fn lemma_square_name_read(s: int)
    requires
        0 <= s < 64,
    ensures
        square_spec(square_name(s)) == Some(s),
{
    let n = square_name(s);
    assert(((97 + s % 8) as char) as int == 97 + s % 8);
    assert(((49 + s / 8) as char) as int == 49 + s / 8);
    assert(n[0] == (97 + s % 8) as char && n[1] == (49 + s / 8) as char);
}

/// The letter of a piece type, in lower case.
pub open spec fn piece_letter(p: PieceType) -> char {
    match p {
        PieceType::Pawn => 'p',
        PieceType::Knight => 'n',
        PieceType::Bishop => 'b',
        PieceType::Rook => 'r',
        PieceType::Queen => 'q',
        PieceType::King => 'k',
    }
}

/// The name of a move in long algebraic notation: the names of its origin
/// and its destination, then the letter of the piece a pawn promotes to.
pub open spec fn move_name(m: Move) -> Seq<char> {
    let base = square_name(m.origin_code()) + square_name(m.destination_code());
    match m.spec_promoted() {
        Some(p) => base.push(piece_letter(p)),
        None => base,
    }
}

impl Square {
    /// The name of the square, such as `e3`.
    pub fn name(&self) -> (r: Vec<char>)
        requires
            self.0 < 64,
        ensures
            r@ == square_name(self.0 as int),
    {
        let column = (self.col() as u8 + 97u8) as char;
        let row = (self.row() as u8 + 49u8) as char;
        let r = vec![column, row];
        assert(r@ =~= square_name(self.0 as int));
        r
    }
}

impl PieceType {
    /// The letter of the piece type, in lower case.
    pub fn letter(&self) -> (r: char)
        ensures
            r == piece_letter(*self),
    {
        match self {
            PieceType::Pawn => 'p',
            PieceType::Knight => 'n',
            PieceType::Bishop => 'b',
            PieceType::Rook => 'r',
            PieceType::Queen => 'q',
            PieceType::King => 'k',
        }
    }
}

/// `Iterator::collect` of the characters into a `String` (std's
/// `FromIterator<&char>` for `String`): the text made of the characters, in
/// order. Claimed: the text's characters are those of the list.
#[verifier::external_body]
fn string_of(chars: &Vec<char>) -> (r: String)
    ensures
        r@ == chars@,
{
    chars.iter().collect()
}

impl Move {
    /// The name of the move in long algebraic notation, such as `e2e4` or
    /// `e7e8q`.
    pub fn name(&self) -> (r: Vec<char>)
        requires
            self.promoted_code() != 6,
        ensures
            r@ == move_name(*self),
    {
        let mut r = self.origin().name();
        let to = self.destination().name();
        r.push(to[0]);
        r.push(to[1]);
        if let Some(p) = self.promoted() {
            r.push(p.letter());
        }
        proof {
            let base = square_name(self.origin_code()) + square_name(self.destination_code());
            match self.spec_promoted() {
                Some(p) => assert(r@ =~= base.push(piece_letter(p))),
                None => assert(r@ =~= base),
            }
        }
        r
    }

    /// The name of the move as text.
    pub fn to_string(&self) -> (r: String)
        requires
            self.promoted_code() != 6,
        ensures
            r@ == move_name(*self),
    {
        string_of(&self.name())
    }
}

/// Distinct moves have distinct names, up to what the name shows: the
/// origin, the destination and the promoted piece.
proof fn lemma_move_name_fields(m1: Move, m2: Move)
    requires
        move_name(m1) == move_name(m2),
    ensures
        m1.origin_code() == m2.origin_code(),
        m1.destination_code() == m2.destination_code(),
        m1.spec_promoted() == m2.spec_promoted(),
{
    lemma_codes_in_range(m1);
    lemma_codes_in_range(m2);
    let n1 = move_name(m1);
    let n2 = move_name(m2);
    assert(n1[0] == n2[0] && n1[1] == n2[1] && n1[2] == n2[2] && n1[3] == n2[3]);
    let o1 = m1.origin_code();
    let o2 = m2.origin_code();
    let d1 = m1.destination_code();
    let d2 = m2.destination_code();
    let b1 = square_name(o1) + square_name(d1);
    let b2 = square_name(o2) + square_name(d2);
    assert(n1[0] == b1[0] && n1[1] == b1[1] && n1[2] == b1[2] && n1[3] == b1[3]);
    assert(n2[0] == b2[0] && n2[1] == b2[1] && n2[2] == b2[2] && n2[3] == b2[3]);
    assert(b1[0] == (97 + o1 % 8) as char && b1[1] == (49 + o1 / 8) as char);
    assert(b1[2] == (97 + d1 % 8) as char && b1[3] == (49 + d1 / 8) as char);
    assert(b2[0] == (97 + o2 % 8) as char && b2[1] == (49 + o2 / 8) as char);
    assert(b2[2] == (97 + d2 % 8) as char && b2[3] == (49 + d2 / 8) as char);
    assert(((97 + o1 % 8) as char) as int == 97 + o1 % 8);
    assert(((97 + o2 % 8) as char) as int == 97 + o2 % 8);
    assert(((49 + o1 / 8) as char) as int == 49 + o1 / 8);
    assert(((49 + o2 / 8) as char) as int == 49 + o2 / 8);
    assert(((97 + d1 % 8) as char) as int == 97 + d1 % 8);
    assert(((97 + d2 % 8) as char) as int == 97 + d2 % 8);
    assert(((49 + d1 / 8) as char) as int == 49 + d1 / 8);
    assert(((49 + d2 / 8) as char) as int == 49 + d2 / 8);
    assert(o1 % 8 == o2 % 8 && o1 / 8 == o2 / 8);
    assert(d1 % 8 == d2 % 8 && d1 / 8 == d2 / 8);
    assert(n1.len() == n2.len());
    assert(n1.len() == 5 <==> m1.spec_promoted() is Some);
    assert(n2.len() == 5 <==> m2.spec_promoted() is Some);
    if m1.spec_promoted() is Some {
        assert(n1[4] == piece_letter(m1.spec_promoted()->0));
        assert(n2[4] == piece_letter(m2.spec_promoted()->0));
        assert(n1[4] == n2[4]);
    }
}

/// A pseudo-legal move of `v` with the given name.
pub open spec fn named_move(v: GameView, name: Seq<char>, m: Move) -> bool {
    !v.ended && pseudo_legal(v, m) && move_name(m) == name
}

/// The position reached by playing the named moves one after the other
/// from `v`: `None` when a position on the way is not well-formed or has no
/// pseudo-legal move of the next name.
pub open spec fn replay(v: GameView, names: Seq<Seq<char>>) -> Option<GameView>
    decreases names.len(),
{
    if names.len() == 0 {
        Some(v)
    } else if !wf(v) {
        None
    } else if exists|m: Move| named_move(v, names[0], m) {
        let m = choose|m: Move| named_move(v, names[0], m);
        replay(apply_view(v, m), names.drop_first())
    } else {
        None
    }
}

/// The position a FEN record and a list of move names lead to.
pub open spec fn with_moves_spec(fen: Seq<char>, names: Seq<Seq<char>>) -> Option<GameView> {
    match fen_spec(fen) {
        Some(v) => replay(v, names),
        None => None,
    }
}

/// The first listed move with the given name.
fn find_named(moves: &Vec<Move>, name: &Vec<char>) -> (r: Option<Move>)
    requires
        forall|m: Move| #[trigger] moves@.contains(m) ==> m.wf(),
    ensures
        r matches Some(m) ==> moves@.contains(m) && move_name(m) == name@,
        r is None ==> forall|m: Move| #[trigger] moves@.contains(m) ==> move_name(m) != name@,
{
    let mut i: usize = 0;
    while i < moves.len()
        invariant
            0 <= i <= moves.len(),
            forall|m: Move| #[trigger] moves@.contains(m) ==> m.wf(),
            forall|j: int| 0 <= j < i ==> move_name(#[trigger] moves@[j]) != name@,
        decreases moves.len() - i,
    {
        let m = moves[i];
        assert(moves@.contains(m));
        if same_chars(&m.name(), name) {
            return Some(m);
        }
        i += 1;
    }
    proof {
        assert forall|m: Move| #[trigger] moves@.contains(m) implies move_name(m) != name@ by {
            let j = choose|j: int| 0 <= j < moves@.len() && moves@[j] == m;
        }
    }
    None
}

/// Plays the named moves, from the one at index `from` on, each the
/// pseudo-legal move of that name. A position on the way that is not
/// well-formed stops the play.
pub fn play_moves(state: GameState, names: &Vec<Vec<char>>, from: usize) -> (r: Option<GameState>)
    requires
        from <= names.len(),
    ensures
        r is Some <==> replay(state@, texts(names@).skip(from as int)) is Some,
        r matches Some(g) ==> g@ == replay(state@, texts(names@).skip(from as int))->0,
{
    let ghost all = texts(names@);
    let ghost start = state@;
    let mut game_state = state;
    let mut i: usize = from;
    while i < names.len()
        invariant
            from <= i <= names.len(),
            start == state@,
            all == texts(names@),
            replay(start, all.skip(from as int)) == replay(game_state@, all.skip(i as int)),
        decreases names.len() - i,
    {
        let ghost v = game_state@;
        let ghost rest = all.skip(i as int);
        proof {
            assert(rest[0] == names@[i as int]@);
            assert(rest.drop_first() =~= all.skip(i + 1));
        }
        if !game_state.is_valid() {
            return None;
        }
        let candidates = game_state.pseudo_legal_moves();
        proof {
            assert forall|m: Move| #[trigger] candidates@.contains(m) implies m.wf() by {}
        }
        let m = match find_named(&candidates, &names[i]) {
            Some(m) => m,
            None => {
                proof {
                    assert forall|m: Move| !named_move(v, rest[0], m) by {
                        if named_move(v, rest[0], m) {
                            assert(candidates@.contains(m));
                        }
                    }
                }
                return None;
            },
        };
        proof {
            assert(named_move(v, rest[0], m));
            let chosen = choose|mm: Move| named_move(v, rest[0], mm);
            lemma_move_name_fields(m, chosen);
            lemma_pseudo_legal_unique(v, m, chosen);
            lemma_pseudo_legal_consistent(v, m);
        }
        game_state.apply(&m);
        i += 1;
    }
    proof {
        assert(all.skip(i as int) =~= Seq::<Seq<char>>::empty());
    }
    Some(game_state)
}

/// Reads a position in Forsyth-Edwards Notation and plays the named moves
/// from it, each the pseudo-legal move of that name. A position on the way
/// that is not well-formed stops the reading.
pub fn parse_with_moves(fen: &str, moves: &[&str]) -> (r: Option<GameState>)
    ensures
        r is Some <==> with_moves_spec(fen@, strs(moves@)) is Some,
        r matches Some(g) ==> g@ == with_moves_spec(fen@, strs(moves@))->0,
{
    let game_state = match parse(fen) {
        Some(g) => g,
        None => return None,
    };
    let mut names: Vec<Vec<char>> = Vec::new();
    let mut i: usize = 0;
    while i < moves.len()
        invariant
            0 <= i <= moves.len(),
            names.len() == i,
            texts(names@) == strs(moves@.take(i as int)),
        decreases moves.len() - i,
    {
        let ghost before = names@;
        names.push(chars_of(moves[i]));
        proof {
            let a = texts(names@);
            let b = strs(moves@.take(i + 1));
            assert(a.len() == i + 1 && b.len() == i + 1);
            let a0 = texts(before);
            let b0 = strs(moves@.take(i as int));
            assert forall|k: int| 0 <= k < i + 1 implies a[k] == b[k] by {
                if k < i {
                    assert(a[k] == a0[k]);
                    assert(b[k] == b0[k]);
                }
            }
            assert(a =~= b);
        }
        i += 1;
    }
    proof {
        assert(moves@.take(i as int) =~= moves@);
        assert(texts(names@).skip(0) =~= texts(names@));
    }
    play_moves(game_state, &names, 0)
}

} // verus!
