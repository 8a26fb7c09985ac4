//! The laws of the engine, stated once and proved by the verifier: checker
//! conservation, unambiguous point ownership, the rejection rules of move
//! legality, the effect of a hit, and the exactness of pip consumption.

use vstd::prelude::*;

use crate::board::{
    bar_index, count_for, moved_bar, moved_points, past_edge, sign, Board,
};
use crate::color::Color;

verus! {

/// Conservation: in every state the board invariant admits — it holds of the
/// opening board and every move preserves it — each side's checkers on the
/// track, on the bar, and borne off account for exactly fifteen.
pub proof fn lemma_fifteen_checkers(b: Board, c: Color)
    requires
        b.inv(),
    ensures
        b.on_track(c) + b.bar_count(c) + b.spec_borne_off(c) == 15,
{
}

/// No point ever holds checkers of both colors: one signed value cannot
/// count for both sides at once, so the sign names the owner unambiguously.
pub proof fn lemma_point_owner_unambiguous(v: int)
    ensures
        !(count_for(v, Color::White) > 0 && count_for(v, Color::Black) > 0),
{
}

/// A move from an empty point, or from a point the opponent owns, is never
/// legal.
pub proof fn lemma_reject_bad_origin(b: Board, player: Color, from: int, to: int)
    requires
        b.spec_point_color(from) != Some(player),
    ensures
        !b.spec_can_move(player, from, to),
{
}

/// Landing on a point held by two or more opposing checkers is never legal.
pub proof fn lemma_reject_blocked_destination(b: Board, player: Color, from: int, to: int)
    requires
        0 <= to < 24,
        count_for(b.points@[to] as int, player.spec_opposite()) >= 2,
    ensures
        !b.spec_can_move(player, from, to),
{
}

/// Bearing off — any destination past the board edge — is never legal before
/// every checker of the mover on the track stands in the home zone.
pub proof fn lemma_reject_early_bear_off(b: Board, player: Color, from: int, to: int)
    requires
        past_edge(player, to),
        !b.spec_home_complete(player),
    ensures
        !b.spec_can_move(player, from, to),
{
}

/// Given the conservation invariant, a side has no checkers left in play —
/// neither on the track nor on the bar — exactly when all fifteen of its
/// checkers are borne off. This is what `is_over` and `winner` decide by.
pub proof fn lemma_no_checkers_means_all_borne_off(b: Board, c: Color)
    requires
        b.inv(),
    ensures
        (b.on_track(c) + b.bar_count(c) == 0) <==> b.spec_borne_off(c) == 15,
{
}

/// Hitting: a legal move onto a point held by exactly one opposing checker
/// leaves exactly one checker of the mover there, none of the opponent, and
/// raises the opponent's bar count by one.
pub proof fn lemma_hit_sends_to_bar(b: Board, player: Color, from: int, to: int)
    requires
        b.inv(),
        0 <= from < 24,
        0 <= to < 24,
        b.spec_can_move(player, from, to),
        count_for(b.points@[to] as int, player.spec_opposite()) == 1,
    ensures
        count_for(moved_points(b.points@, player, from, to)[to] as int, player) == 1,
        count_for(moved_points(b.points@, player, from, to)[to] as int, player.spec_opposite())
            == 0,
        moved_bar(b.points@, b.bar@, player, from, to)[bar_index(player.spec_opposite())] as int
            == b.bar@[bar_index(player.spec_opposite())] as int + 1,
        moved_bar(b.points@, b.bar@, player, from, to)[bar_index(player)] == b.bar@[bar_index(
            player,
        )],
{
    assert(count_for(b.points@[from] as int, player) >= 1);
    assert(from != to);
    assert(b.points@[to] as int == -sign(player));
}

/// Consuming a pip is exact: removing the first occurrence of `v` lowers the
/// count of `v` by one and keeps the count of every other value, while the
/// surviving entries keep their relative order.
pub proof fn lemma_remove_keeps_counts(s: Seq<usize>, i: int, v: usize)
    requires
        0 <= i < s.len(),
        s[i] == v,
    ensures
        s.remove(i).to_multiset().count(v) + 1 == s.to_multiset().count(v),
        forall|x: usize|
            x != v ==> s.remove(i).to_multiset().count(x) == s.to_multiset().count(x),
{
    broadcast use vstd::multiset::group_multiset_axioms;

    s.to_multiset_ensures();
    assert(s.remove(i).to_multiset() =~= s.to_multiset().remove(v));
    assert(s.to_multiset().count(v) > 0) by {
        assert(s.contains(v));
    }
}

} // verus!
