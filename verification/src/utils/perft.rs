//! Perft: counting the leaves of the tree of legal moves, which checks move
//! generation against known counts.
use vstd::prelude::*;

use crate::engine::model::{GameState, Move};
use crate::engine::model::game_state_impl::{GameView, apply_view, lemma_undo_apply};
use crate::engine::rules::lemma_pseudo_legal_consistent;
use crate::engine::rules::playable::{playable, lemma_playable_apply};
use crate::engine::rules::spec::{legal, keeps_king_safe, pseudo_listing};

verus! {

/// A move the side to move may play: the game has not ended and the move is
/// legal.
pub open spec fn playable_move(v: GameView, m: Move) -> bool {
    !v.ended && legal(v, m)
}

/// The number of move sequences of length `depth` that can be played from
/// `v`: the leaves of the tree of legal moves, each path counted once.
pub open spec fn perft_count(v: GameView, depth: nat) -> nat
    decreases depth, 0x1_0000_0001nat,
{
    if depth == 0 {
        1
    } else {
        perft_sum(v, depth, 0x1_0000_0000nat)
    }
}

/// The counts below the moves, among those with a code under `n`, that can
/// be played from `v`.
pub open spec fn perft_sum(v: GameView, depth: nat, n: nat) -> nat
    decreases depth, n,
{
    if depth == 0 || n == 0 {
        0
    } else {
        let m = Move((n - 1) as u32);
        perft_sum(v, depth, (n - 1) as nat) + if playable_move(v, m) {
            perft_count(apply_view(v, m), (depth - 1) as nat)
        } else {
            0
        }
    }
}

/// The counts below the listed moves, added up.
pub open spec fn sum_counts(v: GameView, depth: nat, moves: Seq<Move>) -> nat
    decreases moves.len(),
{
    if moves.len() == 0 {
        0
    } else {
        sum_counts(v, depth, moves.drop_last()) + perft_count(apply_view(v, moves.last()), depth)
    }
}

/// Taking one move out of a list takes its count out of the sum.
proof fn lemma_sum_remove(v: GameView, depth: nat, moves: Seq<Move>, j: int)
    requires
        0 <= j < moves.len(),
    ensures
        sum_counts(v, depth, moves) == sum_counts(v, depth, moves.remove(j)) + perft_count(
            apply_view(v, moves[j]),
            depth,
        ),
    decreases moves.len(),
{
    if j == moves.len() - 1 {
        assert(moves.remove(j) =~= moves.drop_last());
    } else {
        lemma_sum_remove(v, depth, moves.drop_last(), j);
        assert(moves.remove(j).drop_last() =~= moves.drop_last().remove(j));
        assert(moves.remove(j).last() == moves.last());
    }
}

/// A prefix of a list sums to no more than the whole list.
proof fn lemma_sum_prefix(v: GameView, depth: nat, moves: Seq<Move>, i: int)
    requires
        0 <= i <= moves.len(),
    ensures
        sum_counts(v, depth, moves.take(i)) <= sum_counts(v, depth, moves),
    decreases moves.len(),
{
    if i < moves.len() {
        lemma_sum_prefix(v, depth, moves.drop_last(), i);
        assert(moves.drop_last().take(i) =~= moves.take(i));
    } else {
        assert(moves.take(i) =~= moves);
    }
}

/// A list holding, once each, exactly the playable moves with a code under
/// `n` sums to the count of those moves.
proof fn lemma_sum_range(v: GameView, depth: nat, moves: Seq<Move>, n: nat)
    requires
        depth > 0,
        n <= 0x1_0000_0000,
        moves.no_duplicates(),
        forall|m: Move| #[trigger] moves.contains(m) ==> playable_move(v, m) && m.0 < n,
        forall|m: Move| m.0 < n && playable_move(v, m) ==> #[trigger] moves.contains(m),
    ensures
        sum_counts(v, (depth - 1) as nat, moves) == perft_sum(v, depth, n),
    decreases n,
{
    let d = (depth - 1) as nat;
    if n == 0 {
        if moves.len() > 0 {
            assert(moves.contains(moves[0]));
        }
        assert(moves =~= Seq::<Move>::empty());
    } else {
        let mv = Move((n - 1) as u32);
        if playable_move(v, mv) {
            assert(moves.contains(mv));
            let j = choose|j: int| 0 <= j < moves.len() && moves[j] == mv;
            assert(mv.0 == n - 1);
            let rest = moves.remove(j);
            assert forall|m: Move| #[trigger] rest.contains(m) implies playable_move(v, m) && m.0 < n - 1 by {
                let k = choose|k: int| 0 <= k < rest.len() && rest[k] == m;
                let kk = if k < j { k } else { k + 1 };
                assert(moves[kk] == m);
                assert(moves.contains(m));
                assert(kk != j);
            }
            assert forall|m: Move| m.0 < n - 1 && playable_move(v, m) implies #[trigger] rest.contains(m) by {
                assert(moves.contains(m));
                let k = choose|k: int| 0 <= k < moves.len() && moves[k] == m;
                assert(k != j);
                let kk = if k < j { k } else { k - 1 };
                assert(rest[kk] == m);
            }
            assert(rest.no_duplicates()) by {
                assert forall|a: int, b: int| 0 <= a < b < rest.len() implies rest[a] != rest[b] by {
                    let aa = if a < j { a } else { a + 1 };
                    let bb = if b < j { b } else { b + 1 };
                    assert(rest[a] == moves[aa] && rest[b] == moves[bb]);
                }
            }
            lemma_sum_range(v, depth, rest, (n - 1) as nat);
            lemma_sum_remove(v, d, moves, j);
        } else {
            assert forall|m: Move| #[trigger] moves.contains(m) implies playable_move(v, m) && m.0 < n - 1 by {
                if m.0 == n - 1 {
                    assert(m == mv);
                }
            }
            lemma_sum_range(v, depth, moves, (n - 1) as nat);
        }
    }
}

/// Counts the move sequences of length `depth` from the state.
pub fn perft(game_state: &mut GameState, depth: u32) -> (r: u32)
    requires
        playable(old(game_state)@),
        perft_count(old(game_state)@, depth as nat) <= u32::MAX,
    ensures
        final(game_state)@ == old(game_state)@,
        r == perft_count(old(game_state)@, depth as nat),
{
    perft_aux(game_state, depth, 0)
}

/// Counts the move sequences of length `depth - current_depth`: the state
/// has been reached by `current_depth` moves of a sequence of `depth`.
fn perft_aux(game_state: &mut GameState, depth: u32, current_depth: u32) -> (r: u32)
    requires
        current_depth <= depth,
        playable(old(game_state)@),
        perft_count(old(game_state)@, (depth - current_depth) as nat) <= u32::MAX,
    ensures
        final(game_state)@ == old(game_state)@,
        r == perft_count(old(game_state)@, (depth - current_depth) as nat),
    decreases depth - current_depth,
{
    if current_depth == depth {
        return 1;
    }
    let ghost v = game_state@;
    let ghost d = (depth - current_depth - 1) as nat;
    let moves = game_state.legal_moves();
    proof {
        lemma_sum_range(v, (depth - current_depth) as nat, moves@, 0x1_0000_0000nat);
    }
    let mut result: u32 = 0;
    let mut i: usize = 0;
    while i < moves.len()
        invariant
            current_depth < depth,
            d == depth - current_depth - 1,
            game_state@ == v,
            playable(v),
            0 <= i <= moves.len(),
            forall|m: Move| #[trigger] moves@.contains(m) == playable_move(v, m),
            result == sum_counts(v, d, moves@.take(i as int)),
            sum_counts(v, d, moves@) <= u32::MAX,
        decreases moves.len() - i,
    {
        let m = moves[i];
        proof {
            assert(moves@.contains(m));
            lemma_pseudo_legal_consistent(v, m);
            lemma_undo_apply(v, m);
            lemma_playable_apply(v, m);
            lemma_sum_prefix(v, d, moves@, i + 1);
            assert(moves@.take(i + 1).drop_last() =~= moves@.take(i as int));
        }
        game_state.apply(&m);
        let count = perft_aux(game_state, depth, current_depth + 1);
        result = result + count;
        game_state.undo(&m);
        i += 1;
    }
    proof {
        assert(moves@.take(i as int) =~= moves@);
    }
    result
}

/// The count below each legal move of the state: each legal move once, with
/// the number of move sequences of length `depth - 1` that follow it.
pub fn divide(game_state: &mut GameState, depth: u32) -> (r: Vec<(Move, u32)>)
    requires
        depth >= 1,
        playable(old(game_state)@),
        perft_count(old(game_state)@, depth as nat) <= u32::MAX,
    ensures
        final(game_state)@ == old(game_state)@,
        forall|m: Move| playable_move(old(game_state)@, m) <==> exists|i: int| 0 <= i < r@.len() && #[trigger] r@[i].0 == m,
        forall|i: int, j: int| 0 <= i < j < r@.len() ==> r@[i].0 != r@[j].0,
        forall|i: int| 0 <= i < r@.len() ==> #[trigger] r@[i].1 == perft_count(apply_view(old(game_state)@, r@[i].0), (depth - 1) as nat),
        exists|p: Seq<Move>| #[trigger] pseudo_listing(old(game_state)@, p) && r@.len() == p.filter(keeps_king_safe(old(game_state)@)).len()
            && forall|i: int| 0 <= i < r@.len() ==> #[trigger] r@[i].0 == p.filter(keeps_king_safe(old(game_state)@))[i],
{
    let ghost v = game_state@;
    let ghost d = (depth - 1) as nat;
    let moves = game_state.legal_moves();
    proof {
        lemma_sum_range(v, depth as nat, moves@, 0x1_0000_0000nat);
    }
    let mut result: Vec<(Move, u32)> = Vec::new();
    let mut i: usize = 0;
    while i < moves.len()
        invariant
            depth >= 1,
            d == depth - 1,
            game_state@ == v,
            playable(v),
            0 <= i <= moves.len(),
            result.len() == i,
            forall|m: Move| #[trigger] moves@.contains(m) == playable_move(v, m),
            forall|k: int| 0 <= k < i ==> result@[k].0 == moves@[k],
            forall|k: int| 0 <= k < i ==> #[trigger] result@[k].1 == perft_count(apply_view(v, result@[k].0), d),
            sum_counts(v, d, moves@) <= u32::MAX,
        decreases moves.len() - i,
    {
        let m = moves[i];
        proof {
            assert(moves@.contains(m));
            lemma_pseudo_legal_consistent(v, m);
            lemma_undo_apply(v, m);
            lemma_playable_apply(v, m);
            lemma_sum_prefix(v, d, moves@, i + 1);
            lemma_sum_prefix(v, d, moves@.take(i + 1), i as int);
            assert(moves@.take(i + 1).drop_last() =~= moves@.take(i as int));
            assert(moves@.take(i + 1).take(i as int) =~= moves@.take(i as int));
        }
        game_state.apply(&m);
        let count = perft(game_state, depth - 1);
        game_state.undo(&m);
        result.push((m, count));
        i += 1;
    }
    proof {
        assert forall|m: Move| playable_move(v, m) implies exists|k: int| 0 <= k < result@.len() && #[trigger] result@[k].0 == m by {
            assert(moves@.contains(m));
            let k = choose|k: int| 0 <= k < moves@.len() && moves@[k] == m;
            assert(result@[k].0 == m);
        }
        assert forall|m: Move| (exists|k: int| 0 <= k < result@.len() && #[trigger] result@[k].0 == m) implies playable_move(v, m) by {
            let k = choose|k: int| 0 <= k < result@.len() && #[trigger] result@[k].0 == m;
            assert(moves@[k] == m);
            assert(moves@.contains(m));
        }
        assert forall|a: int, b: int| 0 <= a < b < result@.len() implies result@[a].0 != result@[b].0 by {
            assert(moves@[a] != moves@[b]);
        }
        let p = choose|p: Seq<Move>| #[trigger] pseudo_listing(v, p) && moves@ == p.filter(keeps_king_safe(v));
        assert(forall|k: int| 0 <= k < result@.len() ==> #[trigger] result@[k].0 == p.filter(keeps_king_safe(v))[k]);
    }
    result
}

} // verus!
