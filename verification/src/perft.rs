//! Perft for the first engine: the number of move sequences of a given
//! length, following the moves it generates.
use vstd::prelude::*;

use crate::chess::{GameState, MoveView, StateView, views};
use crate::chess::laws::{lemma_all_moves_shape, lemma_move_of_piece, lemma_undo_apply};
use crate::chess::spec::{apply_spec, moves_spec, playable};

verus! {

/// The number of move sequences of length `depth` from `s`.
pub open spec fn tree_count(s: StateView, depth: nat) -> nat
    decreases depth, 0nat,
{
    if depth == 0 {
        1
    } else {
        count_after(s, moves_spec(s), (depth - 1) as nat)
    }
}

/// The number of move sequences of length `depth` after each of the moves.
pub open spec fn count_after(s: StateView, ms: Seq<MoveView>, depth: nat) -> nat
    decreases depth, ms.len(),
{
    if ms.len() == 0 {
        0
    } else {
        count_after(s, ms.drop_last(), depth) + tree_count(apply_spec(s, ms.last()), depth)
    }
}

/// Every state reached within `depth` moves can have its moves generated,
/// played and taken back.
pub open spec fn playable_for(s: StateView, depth: nat) -> bool
    decreases depth, 0nat,
{
    playable(s) && (depth > 0 ==> playable_after(s, moves_spec(s), (depth - 1) as nat))
}

/// Every state reached within `depth` moves after each of the moves can have
/// its moves generated, played and taken back.
pub open spec fn playable_after(s: StateView, ms: Seq<MoveView>, depth: nat) -> bool
    decreases depth, ms.len(),
{
    ms.len() == 0 || (playable_after(s, ms.drop_last(), depth) && playable_for(apply_spec(s, ms.last()), depth))
}

/// The facts about each move of a list that the sum over a prefix needs.
proof fn lemma_prefix(s: StateView, ms: Seq<MoveView>, depth: nat, i: int)
    requires
        0 <= i < ms.len(),
        playable_after(s, ms, depth),
    ensures
        playable_for(apply_spec(s, ms[i]), depth),
        count_after(s, ms.take(i + 1), depth) == count_after(s, ms.take(i), depth) + tree_count(apply_spec(s, ms[i]), depth),
        count_after(s, ms.take(i + 1), depth) <= count_after(s, ms, depth),
    decreases ms.len(),
{
    assert(ms.take(i + 1).drop_last() =~= ms.take(i));
    if i < ms.len() - 1 {
        lemma_prefix(s, ms.drop_last(), depth, i);
        assert(ms.drop_last().take(i + 1) =~= ms.take(i + 1));
        assert(ms.drop_last().take(i) =~= ms.take(i));
        assert(ms.drop_last()[i] == ms[i]);
    } else {
        assert(ms.take(i + 1) =~= ms);
    }
}

/// Whether every state reached within `depth` moves can have its moves
/// generated, played and taken back (see `playable_for`): what `perft`
/// needs.
pub fn playable_within(state: &mut GameState, depth: u32) -> (r: bool)
    ensures
        final(state)@ == old(state)@,
        r == playable_for(old(state)@, depth as nat),
    decreases depth,
{
    if !state.is_playable() {
        return false;
    }
    if depth == 0 {
        return true;
    }
    let ghost s = state@;
    let ghost d = (depth - 1) as nat;
    let moves = state.moves();
    let ghost ms = views(moves@);
    let mut i: usize = 0;
    while i < moves.len()
        invariant
            depth > 0,
            d == depth - 1,
            state@ == s,
            old(state)@ == s,
            playable(s),
            ms == views(moves@),
            ms == moves_spec(s),
            0 <= i <= moves.len(),
            playable_after(s, ms.take(i as int), d),
        decreases moves.len() - i,
    {
        let m = &moves[i];
        proof {
            assert(ms[i as int] == m@);
            let (k, piece, j) = lemma_move_of_piece(s, 64, i as int);
            lemma_all_moves_shape(s, crate::chess::at(k), piece, j);
            lemma_undo_apply(s, crate::chess::at(k), piece, m@);
            assert(ms.take(i + 1).drop_last() =~= ms.take(i as int));
            assert(ms.take(i + 1).last() == ms[i as int]);
        }
        state.apply(m);
        let ok = playable_within(state, depth - 1);
        state.undo(m);
        if !ok {
            proof {
                if playable_after(s, ms, d) {
                    lemma_prefix(s, ms, d, i as int);
                }
            }
            return false;
        }
        i += 1;
    }
    proof {
        assert(ms.take(i as int) =~= ms);
    }
    true
}

/// Counts the move sequences of length `depth` from the state.
pub fn perft(state: &mut GameState, depth: u32) -> (r: u32)
    requires
        playable_for(old(state)@, depth as nat),
        tree_count(old(state)@, depth as nat) <= u32::MAX,
    ensures
        final(state)@ == old(state)@,
        r == tree_count(old(state)@, depth as nat),
{
    perft_aux(state, depth, 0)
}

/// Counts the move sequences of length `depth - current_depth`: the state
/// has been reached by `current_depth` moves of a sequence of `depth`.
fn perft_aux(state: &mut GameState, depth: u32, current_depth: u32) -> (r: u32)
    requires
        current_depth <= depth,
        playable_for(old(state)@, (depth - current_depth) as nat),
        tree_count(old(state)@, (depth - current_depth) as nat) <= u32::MAX,
    ensures
        final(state)@ == old(state)@,
        r == tree_count(old(state)@, (depth - current_depth) as nat),
    decreases depth - current_depth,
{
    if current_depth == depth {
        return 1;
    }
    let ghost s = state@;
    let ghost d = (depth - current_depth - 1) as nat;
    let moves = state.moves();
    let ghost ms = views(moves@);
    let mut result: u32 = 0;
    let mut i: usize = 0;
    while i < moves.len()
        invariant
            current_depth < depth,
            d == depth - current_depth - 1,
            state@ == s,
            playable(s),
            ms == views(moves@),
            ms == moves_spec(s),
            playable_after(s, ms, d),
            0 <= i <= moves.len(),
            result == count_after(s, ms.take(i as int), d),
            count_after(s, ms, d) <= u32::MAX,
        decreases moves.len() - i,
    {
        let m = &moves[i];
        proof {
            assert(ms[i as int] == m@);
            let (k, piece, j) = lemma_move_of_piece(s, 64, i as int);
            lemma_all_moves_shape(s, crate::chess::at(k), piece, j);
            lemma_undo_apply(s, crate::chess::at(k), piece, m@);
            lemma_prefix(s, ms, d, i as int);
        }
        state.apply(m);
        let count = perft_aux(state, depth, current_depth + 1);
        result = result + count;
        state.undo(m);
        i += 1;
    }
    proof {
        assert(ms.take(i as int) =~= ms);
    }
    result
}

} // verus!
