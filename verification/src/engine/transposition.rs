//! Zobrist keys: the random numbers a position's hash is made of.
use vstd::prelude::*;

use crate::engine::model::{Color, GameState, Move, Square};
use crate::engine::model::bits::is_set;
use crate::engine::model::game_state_impl::GameView;
use crate::engine::rules::contains;
use crate::engine::rules::spec::type_at;

use rand::{RngExt, SeedableRng};
use rand::rngs::StdRng;

verus! {

/// `rand::rngs::StdRng`, the seeded generator of the keys, carried as an
/// opaque value.
#[verifier::external_type_specification]
#[verifier::external_body]
pub struct ExStdRng(StdRng);

/// `StdRng::seed_from_u64`: the generator the seed makes. Nothing is stated
/// of it.
#[verifier::external_body]
fn seeded_rng(seed: u64) -> (r: StdRng) {
    StdRng::seed_from_u64(seed)
}

/// `RngExt::random` drawing a `u64`: the next number of the generator.
/// Nothing is stated of it: any number will do as a key.
#[verifier::external_body]
fn next_random(rng: &mut StdRng) -> (r: u64) {
    rng.random()
}

/// Draws `N` keys, in order.
fn draw<const N: usize>(rng: &mut StdRng) -> (r: [u64; N]) {
    let mut keys = [0u64; N];
    let mut i: usize = 0;
    while i < N
        invariant
            0 <= i <= N,
        decreases N - i,
    {
        keys[i] = next_random(rng);
        i += 1;
    }
    keys
}

/// Draws the keys of the pieces of one square: for each type, one per
/// color.
fn draw_square(rng: &mut StdRng) -> (r: [[u64; 2]; 6]) {
    let mut keys = [[0u64; 2]; 6];
    let mut i: usize = 0;
    while i < 6
        invariant
            0 <= i <= 6,
        decreases 6 - i,
    {
        keys[i] = draw::<2>(rng);
        i += 1;
    }
    keys
}

/// Draws the keys of the squares of one row.
fn draw_row(rng: &mut StdRng) -> (r: [[[u64; 2]; 6]; 8]) {
    let mut keys = [[[0u64; 2]; 6]; 8];
    let mut i: usize = 0;
    while i < 8
        invariant
            0 <= i <= 8,
        decreases 8 - i,
    {
        keys[i] = draw_square(rng);
        i += 1;
    }
    keys
}

/// The keys hashed together for a position: one per piece on a square, per
/// side to move, per set of castling flags and per en-passant column.
#[derive(Debug)]
pub struct ZobristValues {
    pub piece_square: [[[[u64; 2]; 6]; 8]; 8],
    pub current_player: [u64; 2],
    pub castling: [u64; 16],
    pub en_passant: [u64; 8],
}

/// What a stored score says of the true one.
#[derive(PartialEq, Eq, Debug)]
pub enum TranspositionType {
    Exact,
    UpperBound,
    LowerBound,
}

/// The hash of a position: the key of the side to move, that of its
/// castling flags and, when there is an en-passant square, that of its
/// column.
pub open spec fn zobrist_hash(z: ZobristValues, g: GameState) -> u64 {
    let base = z.current_player[g.current_player.idx()] ^ z.castling[g.castling.0 as int];
    match g.en_passant {
        Some(s) => base ^ z.en_passant[s.0 as int % 8],
        None => base,
    }
}

impl ZobristValues {
    /// Keys drawn from the generator the seed makes: those of the pieces,
    /// row by row, square by square, type by type and color by color, then
    /// those of the sides, the castling flags and the en-passant columns.
    pub fn new(seed: u64) -> (r: ZobristValues)
        ensures
            r.current_player[0] != r.current_player[1],
    {
        let mut rng = seeded_rng(seed);
        let mut piece_square = [[[[0u64; 2]; 6]; 8]; 8];
        let mut i: usize = 0;
        while i < 8
            invariant
                0 <= i <= 8,
            decreases 8 - i,
        {
            piece_square[i] = draw_row(&mut rng);
            i += 1;
        }
        let current_player = draw::<2>(&mut rng);
        // Two equal keys for the sides would let the side to move drop out of
        // every hash; in the one case where the two draws coincide, the
        // second key is told apart by its lowest bit.
        let current_player = if current_player[0] == current_player[1] {
            let k = current_player[1];
            proof {
                lemma_xor(k, k, 1u64);
            }
            [current_player[0], k ^ 1]
        } else {
            current_player
        };
        let castling = draw::<16>(&mut rng);
        let en_passant = draw::<8>(&mut rng);
        ZobristValues { piece_square, current_player, castling, en_passant }
    }

    /// The hash of the position.
    pub fn hash(&self, game_state: &GameState) -> (r: u64)
        requires
            game_state.castling.0 < 16,
        ensures
            r == zobrist_hash(*self, *game_state),
    {
        let player = match game_state.current_player {
            Color::White => 0,
            Color::Black => 1,
        };
        let mut result = self.current_player[player] ^ self.castling[game_state.castling.0 as usize];
        if let Some(square) = game_state.en_passant {
            result = result ^ self.en_passant[square.col()];
        }
        result
    }
}

/// A position met before: its hash, the depth it was searched to, the score
/// found (of type `V`), the best move found and what the score says of the
/// true one.
pub struct TranspositionEntry<V> {
    pub hash: u64,
    pub depth: u32,
    pub value: V,
    pub best_move: Option<Move>,
    pub t: TranspositionType,
}

/// A table of positions met before, in two halves of `size` slots each: a
/// position goes to slot `hash & (size - 1)` of the half that prefers deep
/// searches, unless that slot holds a deeper search; it then goes to the same
/// slot of the half that always takes the newest.
pub struct TranspositionTable<V> {
    size: u32,
    items: u32,
    mask: u64,
    zobrist: ZobristValues,
    depth_table: Vec<Option<TranspositionEntry<V>>>,
    fresh_table: Vec<Option<TranspositionEntry<V>>>,
}

/// What a table holds: its size, the number of filled slots, the mask of
/// the slot numbers, the keys it hashes with and its two halves.
pub struct TableView<V> {
    pub size: nat,
    pub items: nat,
    pub mask: u64,
    pub zobrist: ZobristValues,
    pub depth: Seq<Option<TranspositionEntry<V>>>,
    pub fresh: Seq<Option<TranspositionEntry<V>>>,
}

impl<V> View for TranspositionTable<V> {
    type V = TableView<V>;

    closed spec fn view(&self) -> TableView<V> {
        TableView {
            size: self.size as nat,
            items: self.items as nat,
            mask: self.mask,
            zobrist: self.zobrist,
            depth: self.depth_table@,
            fresh: self.fresh_table@,
        }
    }
}

/// The number of filled slots.
pub open spec fn filled<V>(s: Seq<Option<TranspositionEntry<V>>>) -> nat
    decreases s.len(),
{
    if s.len() == 0 {
        0
    } else {
        filled(s.drop_last()) + if s.last() is Some { 1nat } else { 0nat }
    }
}

/// A well-formed table: at least one slot and fewer than 2^31 in each half,
/// the mask one less than the size (so a slot number never reaches it), and
/// the count of filled slots right.
pub open spec fn table_wf<V>(t: TableView<V>) -> bool {
    &&& 1 <= t.size < 0x8000_0000
    &&& t.mask == t.size - 1
    &&& t.depth.len() == t.size
    &&& t.fresh.len() == t.size
    &&& t.items == filled(t.depth) + filled(t.fresh)
}

/// The slot of a hash.
pub open spec fn slot(hash: u64, mask: u64) -> int {
    (hash & mask) as int
}

/// Whether a slot holds the position of hash `hash`, searched at least to
/// depth `depth`.
pub open spec fn answers<V>(e: Option<TranspositionEntry<V>>, hash: u64, depth: u32) -> bool {
    e matches Some(x) && x.hash == hash && x.depth >= depth
}

/// What a look-up finds: the slot of the deep half if it answers, else that
/// of the fresh half if it answers, else nothing.
pub open spec fn lookup<V>(t: TableView<V>, hash: u64, depth: u32) -> Option<TranspositionEntry<V>> {
    let p = slot(hash, t.mask);
    if answers(t.depth[p], hash, depth) {
        t.depth[p]
    } else if answers(t.fresh[p], hash, depth) {
        t.fresh[p]
    } else {
        None
    }
}

/// The table after storing `e`: in the fresh half when the slot of the deep
/// half holds a deeper search, else in the deep half; the count grows when
/// the slot written was empty.
pub open spec fn stored<V>(t: TableView<V>, e: TranspositionEntry<V>) -> TableView<V> {
    let p = slot(e.hash, t.mask);
    if t.depth[p] matches Some(x) && x.depth > e.depth {
        TableView {
            items: if t.fresh[p] is None { t.items + 1 } else { t.items },
            fresh: t.fresh.update(p, Some(e)),
            ..t
        }
    } else {
        TableView {
            items: if t.depth[p] is None { t.items + 1 } else { t.items },
            depth: t.depth.update(p, Some(e)),
            ..t
        }
    }
}

/// Writing a slot changes the count of filled slots by what was and what is
/// there.
pub proof fn lemma_filled_update<V>(s: Seq<Option<TranspositionEntry<V>>>, p: int, x: Option<TranspositionEntry<V>>)
    requires
        0 <= p < s.len(),
    ensures
        filled(s.update(p, x)) + (if s[p] is Some { 1int } else { 0int }) == filled(s) + (if x is Some { 1int } else { 0int }),
    decreases s.len(),
{
    let u = s.update(p, x);
    if p == s.len() - 1 {
        assert(u.drop_last() =~= s.drop_last());
    } else {
        assert(u.drop_last() =~= s.drop_last().update(p, x));
        lemma_filled_update(s.drop_last(), p, x);
    }
}

/// No more slots are filled than there are.
pub proof fn lemma_filled_bound<V>(s: Seq<Option<TranspositionEntry<V>>>)
    ensures
        filled(s) <= s.len(),
    decreases s.len(),
{
    if s.len() > 0 {
        lemma_filled_bound(s.drop_last());
    }
}

/// A position just stored is found again at any depth up to the one it was
/// stored with: either the entry stored, or an older one of the same
/// position searched deeper.
pub proof fn lemma_store_then_lookup<V>(t: TableView<V>, e: TranspositionEntry<V>, depth: u32)
    requires
        table_wf(t),
        depth <= e.depth,
    ensures
        lookup(stored(t, e), e.hash, depth) matches Some(x) && x.hash == e.hash && x.depth >= depth
            && (x == e || x.depth > e.depth),
{
    let p = slot(e.hash, t.mask);
    let h = e.hash;
    let m = t.mask;
    assert((h & m) <= m) by (bit_vector);
}

impl<V> TranspositionTable<V> {
    /// An empty table of `size` slots in each half, hashing with the keys of
    /// seed 42.
    pub fn new(size: u32) -> (r: TranspositionTable<V>)
        requires
            1 <= size < 0x8000_0000,
        ensures
            table_wf(r@),
            r@.size == size,
            r@.items == 0,
            forall|p: int| 0 <= p < size ==> r@.depth[p] is None && r@.fresh[p] is None,
    {
        let mut depth_table: Vec<Option<TranspositionEntry<V>>> = Vec::new();
        let mut fresh_table: Vec<Option<TranspositionEntry<V>>> = Vec::new();
        let mut i: u32 = 0;
        while i < size
            invariant
                0 <= i <= size,
                depth_table@.len() == i,
                fresh_table@.len() == i,
                filled(depth_table@) == 0,
                filled(fresh_table@) == 0,
                forall|p: int| 0 <= p < i ==> depth_table@[p] is None && fresh_table@[p] is None,
            decreases size - i,
        {
            let ghost d = depth_table@;
            let ghost f = fresh_table@;
            depth_table.push(None);
            fresh_table.push(None);
            proof {
                assert(depth_table@.drop_last() =~= d);
                assert(fresh_table@.drop_last() =~= f);
            }
            i += 1;
        }
        TranspositionTable {
            size,
            items: 0,
            mask: size as u64 - 1,
            zobrist: ZobristValues::new(42),
            depth_table,
            fresh_table,
        }
    }

    /// The number of slots of each half.
    pub fn size(&self) -> (r: u32)
        ensures
            r == self@.size,
    {
        self.size
    }

    /// The number of filled slots.
    pub fn items(&self) -> (r: u32)
        ensures
            r == self@.items,
    {
        self.items
    }

    /// The slot number of a hash, below the size.
    fn slot_of(&self, hash: u64) -> (r: usize)
        requires
            table_wf(self@),
        ensures
            r == slot(hash, self@.mask),
            r < self@.size,
    {
        let m = self.mask;
        proof {
            assert((hash & m) <= m) by (bit_vector);
        }
        (hash & m) as usize
    }

    /// The entry of the position of hash `hash` searched at least to depth
    /// `depth`, looked up in the deep half, then in the fresh half.
    pub fn get(&self, hash: u64, depth: u32) -> (r: Option<&TranspositionEntry<V>>)
        requires
            table_wf(self@),
        ensures
            match r {
                Some(e) => lookup(self@, hash, depth) == Some(*e),
                None => lookup(self@, hash, depth) is None,
            },
    {
        let p = self.slot_of(hash);
        if let Some(entry) = self.depth_table[p].as_ref() {
            if entry.hash == hash && entry.depth >= depth {
                return Some(entry);
            }
        }
        if let Some(entry) = self.fresh_table[p].as_ref() {
            if entry.hash == hash && entry.depth >= depth {
                return Some(entry);
            }
        }
        None
    }

    /// Stores a search of a position: over the slot of the deep half unless
    /// it holds a deeper search, else over that of the fresh half.
    pub fn insert(&mut self, hash: u64, depth: u32, value: V, best_move: Option<Move>, t: TranspositionType)
        requires
            table_wf(old(self)@),
        ensures
            table_wf(final(self)@),
            final(self)@ == stored(old(self)@, TranspositionEntry { hash, depth, value, best_move, t }),
    {
        let ghost before = self@;
        let ghost e = TranspositionEntry { hash, depth, value, best_move, t };
        let position = self.slot_of(hash);
        let deeper = match self.depth_table[position].as_ref() {
            Some(entry) => entry.depth > depth,
            None => false,
        };
        proof {
            lemma_filled_bound(self.depth_table@);
            lemma_filled_bound(self.fresh_table@);
            lemma_filled_update(self.depth_table@, position as int, Some(e));
            lemma_filled_update(self.fresh_table@, position as int, Some(e));
        }
        if deeper {
            if self.fresh_table[position].is_none() {
                self.items += 1;
            }
            self.fresh_table.set(position, Some(TranspositionEntry { hash, depth, value, best_move, t }));
        } else {
            if self.depth_table[position].is_none() {
                self.items += 1;
            }
            self.depth_table.set(position, Some(TranspositionEntry { hash, depth, value, best_move, t }));
        }
        proof {
            assert(self@.depth =~= stored(before, e).depth);
            assert(self@.fresh =~= stored(before, e).fresh);
        }
    }

    /// The hash of the position, with the table's keys.
    pub fn hash(&self, game_state: &GameState) -> (r: u64)
        requires
            game_state.castling.0 < 16,
        ensures
            r == zobrist_hash(self@.zobrist, *game_state),
    {
        self.zobrist.hash(game_state)
    }
}

/// The key of the piece on square `i` (its type looked up from pawns to
/// kings, white when the square is in white's set), or 0 for an empty
/// square.
pub open spec fn square_key(z: ZobristValues, v: GameView, i: int) -> u64 {
    match type_at(v, i) {
        Some(t) => z.piece_square[i / 8][i % 8][t.idx()][if is_set(v.colors[0], i) { 0int } else { 1int }],
        None => 0,
    }
}

/// The keys of the pieces on the first `n` squares, hashed together.
pub open spec fn pieces_hash(z: ZobristValues, v: GameView, n: nat) -> u64
    decreases n,
{
    if n == 0 {
        0
    } else {
        pieces_hash(z, v, (n - 1) as nat) ^ square_key(z, v, n - 1)
    }
}

/// The hash of a position with its pieces: that of the side to move, the
/// castling flags and the en-passant column, with the key of each piece on
/// the board.
pub open spec fn position_hash(z: ZobristValues, g: GameState) -> u64 {
    zobrist_hash(z, g) ^ pieces_hash(z, g@, 64)
}

impl GameState {
    /// The hash of the position with the given keys, pieces included.
    pub fn hash(&self, zobrist: &ZobristValues) -> (r: u64)
        requires
            self.castling.0 < 16,
        ensures
            r == position_hash(*zobrist, *self),
    {
        let base = zobrist.hash(self);
        let mut result = base;
        proof {
            let z: u64 = pieces_hash(*zobrist, self@, 0);
            lemma_xor(base, base, z);
        }
        let mut i: usize = 0;
        while i < 64
            invariant
                0 <= i <= 64,
                self.castling.0 < 16,
                base == zobrist_hash(*zobrist, *self),
                result == base ^ pieces_hash(*zobrist, self@, i as nat),
            decreases 64 - i,
        {
            let ghost before = result;
            let ghost done = pieces_hash(*zobrist, self@, i as nat);
            let key = match self.piece_at(Square(i)) {
                Some(t) => {
                    let color = if contains(self.board.colors[0], Square(i)) { 0 } else { 1 };
                    zobrist.piece_square[i / 8][i % 8][t.index()][color]
                },
                None => 0,
            };
            proof {
                assert(key == square_key(*zobrist, self@, i as int));
                lemma_xor(base, done, key);
            }
            result = result ^ key;
            i += 1;
        }
        result
    }
}

impl<V> TranspositionTable<V> {
    /// The keys the table hashes with.
    pub fn keys(&self) -> (r: &ZobristValues)
        ensures
            *r == self@.zobrist,
    {
        &self.zobrist
    }
}

/// Facts of `^` on 64-bit words: it groups either way, 0 changes nothing,
/// 1 changes every word, and the same word added to two different words
/// keeps them different.
proof fn lemma_xor(a: u64, b: u64, c: u64)
    by (bit_vector)
    ensures
        (a ^ b) ^ c == a ^ (b ^ c),
        c == 0 ==> a ^ c == a,
        c == 1 ==> a ^ c != a,
        a != b ==> a ^ c != b ^ c,
{
}

/// Positions that differ only in the side to move hash differently, when
/// the keys of the two sides differ (as those of `ZobristValues::new` do),
/// with or without their pieces.
pub proof fn lemma_side_to_move_hashes(z: ZobristValues, g: GameState, h: GameState)
    requires
        z.current_player[0] != z.current_player[1],
        g.current_player != h.current_player,
        g.castling == h.castling,
        g.en_passant == h.en_passant,
        g.castling.0 < 16,
    ensures
        zobrist_hash(z, g) != zobrist_hash(z, h),
        g.board == h.board ==> position_hash(z, g) != position_hash(z, h),
{
    let a = z.current_player[g.current_player.idx()];
    let b = z.current_player[h.current_player.idx()];
    assert(a != b);
    let c = z.castling[g.castling.0 as int];
    let e: u64 = match g.en_passant {
        Some(sq) => z.en_passant[sq.0 as int % 8],
        None => 0,
    };
    lemma_xor(a, b, c);
    lemma_xor(a ^ c, b ^ c, e);
    if g.board == h.board {
        assert(g@.pieces == h@.pieces && g@.colors == h@.colors);
        assert(pieces_hash(z, g@, 64) == pieces_hash(z, h@, 64)) by {
            lemma_pieces_hash_board(z, g@, h@, 64);
        }
        let x = zobrist_hash(z, g);
        let y = zobrist_hash(z, h);
        let p = pieces_hash(z, g@, 64);
        lemma_xor(x, y, p);
    }
}

/// The keys of the pieces depend on the board alone.
proof fn lemma_pieces_hash_board(z: ZobristValues, v: GameView, w: GameView, n: nat)
    requires
        v.pieces == w.pieces,
        v.colors == w.colors,
    ensures
        pieces_hash(z, v, n) == pieces_hash(z, w, n),
    decreases n,
{
    if n > 0 {
        lemma_pieces_hash_board(z, v, w, (n - 1) as nat);
        assert(type_at(v, n - 1) == type_at(w, n - 1));
    }
}

} // verus!
