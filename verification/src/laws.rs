//! Game-wide laws: every move the catalog can produce preserves the game
//! invariant (ownership partition and foundation ascension), and every
//! executed move strictly shrinks a termination measure.

use vstd::prelude::*;
use vstd::multiset::group_multiset_axioms;
use vstd::seq_lib::group_to_multiset_ensures;
use vstd::seq_lib::lemma_multiset_commutative;
use crate::card::Card;
use crate::card::card_wf;
use crate::card::spec_card;
use crate::game::Game;
use crate::game::TableStack;
use crate::game::all_cards_wf;
use crate::game::deck_cards;
use crate::game::foundation_ok;
use crate::game::game_cards;
use crate::game::game_wf;
use crate::game::lemma_deck_count;
use crate::game::run_proper;
use crate::game::stack_wf;
use crate::moves::draw_ace_eligible;
use crate::moves::flip_eligible;
use crate::moves::game_bounded;
use crate::moves::placement_match;
use crate::moves::spec_flip_move;
use crate::moves::table_ace_eligible;
use crate::state::CardPosition;
use crate::state::GameMove;
use crate::state::move_applied;

verus! {

// ---------------------------------------------------------------------------
// Sequence-to-multiset helpers
// ---------------------------------------------------------------------------
proof fn lemma_split_to_multiset(s: Seq<Card>, i: int)
    requires
        0 <= i <= s.len(),
    ensures
        s.to_multiset() == s.subrange(0, i).to_multiset().add(
            s.subrange(i, s.len() as int).to_multiset(),
        ),
{
    let a = s.subrange(0, i);
    let b = s.subrange(i, s.len() as int);
    lemma_multiset_commutative(a, b);
    assert(a + b =~= s);
}

proof fn lemma_insert_to_multiset(s: Seq<Card>, i: int, c: Card)
    requires
        0 <= i <= s.len(),
    ensures
        s.insert(i, c).to_multiset() == s.to_multiset().insert(c),
{
    broadcast use group_to_multiset_ensures;
    broadcast use group_multiset_axioms;

    let a = s.subrange(0, i);
    let b = s.subrange(i, s.len() as int);
    assert(s.insert(i, c) =~= a.push(c) + b);
    lemma_multiset_commutative(a.push(c), b);
    lemma_split_to_multiset(s, i);
    assert(s.insert(i, c).to_multiset() =~= s.to_multiset().insert(c));
}

/// The game invariant bounds every container, as the generators require.
pub proof fn lemma_wf_bounded(g: Game)
    requires
        game_wf(g),
    ensures
        game_bounded(g),
{
    broadcast use group_to_multiset_ensures;
    broadcast use group_multiset_axioms;

    assert(deck_cards().len() == 52);
    assert forall|i: int|
        0 <= i < 7 implies (#[trigger] g.table@[i]).downturned@.len() <= 52
        && g.table@[i].upturned@.len() <= 52 by {
        assert(game_cards(g).len() >= g.table@[i].downturned@.to_multiset().len()
            + g.table@[i].upturned@.to_multiset().len());
    }
    assert forall|s: int| 0 <= s < 4 implies (#[trigger] g.aces@[s]).ace_stack@.len() <= 52 by {
        assert(game_cards(g).len() >= g.aces@[s].ace_stack@.to_multiset().len());
    }
    assert(game_cards(g).len() >= g.draw@.to_multiset().len());
    assert forall|s: int| 0 <= s < 4 implies all_cards_wf((#[trigger] g.aces@[s]).ace_stack@) by {
        assert forall|k: int| 0 <= k < g.aces@[s].ace_stack@.len() implies card_wf(
            #[trigger] g.aces@[s].ace_stack@[k],
        ) by {
            assert(g.aces@[s].ace_stack@[k] == spec_card(s * 13 + k));
            assert(0 <= (s * 13 + k) / 13 < 4 && 0 <= (s * 13 + k) % 13 < 13) by (nonlinear_arith)
                requires
                    0 <= s < 4,
                    0 <= k < 13,
            ;
        }
    }
}

// ---------------------------------------------------------------------------
// Card uniqueness: a bare Ace exposed outside its foundation means that
// foundation is still empty.
// ---------------------------------------------------------------------------
proof fn lemma_ace_identity(c: Card)
    requires
        card_wf(c),
        c.number == 1,
    ensures
        c == spec_card(c.suit_index * 13),
{
    let s = c.suit_index as int;
    assert((s * 13) / 13 == s && (s * 13) % 13 == 0) by (nonlinear_arith)
        requires
            0 <= s < 4,
    ;
}

/// A stack's exposed Ace cannot coexist with a card in its suit's
/// foundation: the foundation is empty.
pub proof fn lemma_table_ace_foundation_empty(g: Game, i: int)
    requires
        game_wf(g),
        0 <= i < 7,
        table_ace_eligible(g, i),
    ensures
        g.aces@[g.table@[i].upturned@.last().suit_index as int].ace_stack@.len() == 0,
{
    broadcast use group_to_multiset_ensures;
    broadcast use group_multiset_axioms;

    let u = g.table@[i].upturned@;
    let c = u.last();
    let s = c.suit_index as int;
    assert(card_wf(c));
    lemma_ace_identity(c);
    let a = g.aces@[s].ace_stack@;
    if a.len() > 0 {
        assert(a[0] == spec_card(s * 13));
        assert(u.contains(c));
        assert(a.contains(c));
        assert(u.to_multiset().count(c) >= 1);
        assert(a.to_multiset().count(c) >= 1);
        assert(game_cards(g).count(c) >= u.to_multiset().count(c) + a.to_multiset().count(c));
        lemma_deck_count(c);
        assert(false);
    }
}

/// An Ace in the draw pile cannot coexist with a card in its suit's
/// foundation: the foundation is empty.
pub proof fn lemma_draw_ace_foundation_empty(g: Game, k: int)
    requires
        game_wf(g),
        0 <= k < g.draw@.len(),
        draw_ace_eligible(g, k),
    ensures
        g.aces@[g.draw@[k].suit_index as int].ace_stack@.len() == 0,
{
    broadcast use group_to_multiset_ensures;
    broadcast use group_multiset_axioms;

    let c = g.draw@[k];
    let s = c.suit_index as int;
    assert(card_wf(c));
    lemma_ace_identity(c);
    let a = g.aces@[s].ace_stack@;
    if a.len() > 0 {
        assert(a[0] == spec_card(s * 13));
        assert(g.draw@.contains(c));
        assert(a.contains(c));
        assert(g.draw@.to_multiset().count(c) >= 1);
        assert(a.to_multiset().count(c) >= 1);
        assert(game_cards(g).count(c) >= g.draw@.to_multiset().count(c) + a.to_multiset().count(
            c,
        ));
        lemma_deck_count(c);
        assert(false);
    }
}

// ---------------------------------------------------------------------------
// Invariant preservation, one lemma per move shape
// ---------------------------------------------------------------------------
/// Flipping stack `i`'s top face-down card preserves the game invariant.
pub proof fn lemma_flip_preserves_wf(pre: Game, post: Game, i: int)
    requires
        game_wf(pre),
        0 <= i < 7,
        flip_eligible(pre, i),
        move_applied(pre, post, spec_flip_move(pre, i)),
    ensures
        game_wf(post),
{
    broadcast use group_to_multiset_ensures;
    broadcast use group_multiset_axioms;

    lemma_wf_bounded(pre);
    let d = pre.table@[i].downturned@;
    let di = d.len() - 1;
    let c = d[di];
    assert(post.table@[i].downturned@ == d.remove(di));
    assert(post.table@[i].upturned@ == pre.table@[i].upturned@.insert(0, c));
    lemma_insert_to_multiset(pre.table@[i].upturned@, 0, c);
    assert(d.contains(c));
    assert(d.to_multiset().count(c) >= 1);
    assert(game_cards(post) =~= game_cards(pre));
    assert forall|x: int| 0 <= x < 7 implies stack_wf(#[trigger] post.table@[x]) by {
        if x == i {
            assert forall|t: int| 0 <= t < d.remove(di).len() implies card_wf(
                #[trigger] d.remove(di)[t],
            ) by {
                assert(d.remove(di)[t] == d[t]);
            }
            assert(post.table@[i].upturned@ =~= seq![c]);
        }
    }
}

/// Promoting stack `i`'s exposed top card (rank exactly one above its
/// suit's foundation) preserves the game invariant.
pub proof fn lemma_table_to_foundation_preserves_wf(pre: Game, post: Game, i: int)
    requires
        game_wf(pre),
        0 <= i < 7,
        pre.table@[i].upturned@.len() > 0,
        0 <= pre.table@[i].upturned@.last().suit_index < 4,
        pre.table@[i].upturned@.last().number == pre.aces@[pre.table@[i].upturned@.last().suit_index as int].ace_stack@.len() + 1,
        move_applied(
            pre,
            post,
            GameMove {
                from: CardPosition::TableUpturned {
                    stack_index: i as i8,
                    upturned_index: (pre.table@[i].upturned@.len() - 1) as i8,
                },
                to: CardPosition::Ace {
                    suit_index: pre.table@[i].upturned@.last().suit_index,
                },
            },
        ),
    ensures
        game_wf(post),
{
    broadcast use group_to_multiset_ensures;
    broadcast use group_multiset_axioms;

    lemma_wf_bounded(pre);
    let u = pre.table@[i].upturned@;
    let c = u.last();
    let s = c.suit_index as int;
    let a = pre.aces@[s].ace_stack@;
    assert(card_wf(c));
    assert(post.table@[i].upturned@ == u.subrange(0, u.len() - 1));
    assert(post.aces@[s].ace_stack@ == a.push(c));
    // the promoted card is exactly the next card of that foundation
    assert(c == spec_card(s * 13 + a.len())) by {
        assert((s * 13 + a.len()) / 13 == s && (s * 13 + a.len()) % 13 == a.len())
            by (nonlinear_arith)
            requires
                0 <= s < 4,
                0 <= a.len() < 13,
        ;
    }
    assert(foundation_ok(post.aces@[s].ace_stack@, s));
    // partition: the card left the stack and entered the foundation
    assert(u.subrange(0, u.len() - 1) =~= u.remove(u.len() - 1));
    assert(u.contains(c));
    assert(u.to_multiset().count(c) >= 1);
    assert(game_cards(post) =~= game_cards(pre));
    // the shortened run is still proper and well formed
    assert forall|x: int| 0 <= x < 7 implies stack_wf(#[trigger] post.table@[x]) by {
        if x == i {
            assert(forall|t: int|
                0 <= t < u.len() - 1 ==> #[trigger] u.subrange(0, u.len() - 1)[t] == u[t]);
        }
    }
}

/// Promoting draw card `k` (rank exactly one above its suit's foundation)
/// preserves the game invariant.
pub proof fn lemma_draw_to_foundation_preserves_wf(pre: Game, post: Game, k: int)
    requires
        game_wf(pre),
        0 <= k < pre.draw@.len(),
        0 <= pre.draw@[k].suit_index < 4,
        pre.draw@[k].number == pre.aces@[pre.draw@[k].suit_index as int].ace_stack@.len() + 1,
        move_applied(
            pre,
            post,
            GameMove {
                from: CardPosition::DrawDeck { deck_index: k as i8 },
                to: CardPosition::Ace { suit_index: pre.draw@[k].suit_index },
            },
        ),
    ensures
        game_wf(post),
{
    broadcast use group_to_multiset_ensures;
    broadcast use group_multiset_axioms;

    lemma_wf_bounded(pre);
    let c = pre.draw@[k];
    let s = c.suit_index as int;
    let a = pre.aces@[s].ace_stack@;
    assert(card_wf(c));
    assert(post.draw@ == pre.draw@.remove(k));
    assert(post.aces@[s].ace_stack@ == a.push(c));
    assert(c == spec_card(s * 13 + a.len())) by {
        assert((s * 13 + a.len()) / 13 == s && (s * 13 + a.len()) % 13 == a.len())
            by (nonlinear_arith)
            requires
                0 <= s < 4,
                0 <= a.len() < 13,
        ;
    }
    assert(foundation_ok(post.aces@[s].ace_stack@, s));
    assert(pre.draw@.contains(c));
    assert(pre.draw@.to_multiset().count(c) >= 1);
    assert(game_cards(post) =~= game_cards(pre));
    assert forall|t: int| 0 <= t < post.draw@.len() implies card_wf(#[trigger] post.draw@[t]) by {
        assert(post.draw@[t] == if t < k {
            pre.draw@[t]
        } else {
            pre.draw@[t + 1]
        });
    }
}

/// Moving the face-up run of stack `i` from position `ui` onto the top of
/// stack `j` — either a proper continuation or any run onto an empty stack —
/// preserves the game invariant.
pub proof fn lemma_run_move_preserves_wf(pre: Game, post: Game, i: int, ui: int, j: int)
    requires
        game_wf(pre),
        0 <= i < 7,
        0 <= j < 7,
        i != j,
        0 <= ui < pre.table@[i].upturned@.len(),
        pre.table@[j].upturned@.len() == 0 || placement_match(
            pre.table@[i].upturned@[ui],
            pre.table@[j].upturned@.last(),
        ),
        move_applied(
            pre,
            post,
            GameMove {
                from: CardPosition::TableUpturned {
                    stack_index: i as i8,
                    upturned_index: ui as i8,
                },
                to: CardPosition::TableUpturned {
                    stack_index: j as i8,
                    upturned_index: pre.table@[j].upturned@.len() as i8,
                },
            },
        ),
    ensures
        game_wf(post),
{
    broadcast use group_to_multiset_ensures;
    broadcast use group_multiset_axioms;

    lemma_wf_bounded(pre);
    let u_i = pre.table@[i].upturned@;
    let u_j = pre.table@[j].upturned@;
    let moved = u_i.subrange(ui, u_i.len() as int);
    assert(post.table@[i].upturned@ == u_i.subrange(0, ui));
    assert(post.table@[j].upturned@ == u_j.subrange(0, u_j.len() as int) + moved + u_j.subrange(
        u_j.len() as int,
        u_j.len() as int,
    ));
    let u_j_new = post.table@[j].upturned@;
    assert(u_j_new =~= u_j + moved);
    // partition
    lemma_split_to_multiset(u_i, ui);
    lemma_multiset_commutative(u_j, moved);
    assert(game_cards(post) =~= game_cards(pre));
    // the combined run is proper: both halves were, and the junction obeys
    // the placement rule (or the target was empty)
    assert forall|x: int| 0 <= x < 7 implies stack_wf(#[trigger] post.table@[x]) by {
        if x == i {
            assert(forall|t: int| 0 <= t < ui ==> #[trigger] u_i.subrange(0, ui)[t] == u_i[t]);
        }
        if x == j {
            let lj = u_j.len() as int;
            assert(forall|t: int|
                0 <= t < u_j_new.len() ==> #[trigger] u_j_new[t] == if t < lj {
                    u_j[t]
                } else {
                    u_i[ui + (t - lj)]
                });
            assert forall|t: int|
                0 <= t && t + 1 < u_j_new.len() implies (#[trigger] u_j_new[t + 1]).number
                == u_j_new[t].number - 1 && !crate::card::spec_same_color(
                u_j_new[t].suit,
                u_j_new[t + 1].suit,
            ) by {
                if t + 1 < lj {
                    assert(run_proper(u_j));
                    assert(u_j[t + 1].number == u_j[t].number - 1 && !crate::card::spec_same_color(
                        u_j[t].suit,
                        u_j[t + 1].suit,
                    ));
                } else if t + 1 == lj {
                    assert(u_j_new[t] == u_j.last());
                    assert(u_j_new[t + 1] == u_i[ui]);
                } else {
                    let p = ui + (t - lj);
                    assert(run_proper(u_i));
                    assert(u_i[p + 1].number == u_i[p].number - 1 && !crate::card::spec_same_color(
                        u_i[p].suit,
                        u_i[p + 1].suit,
                    ));
                }
            }
        }
    }
}

/// Placing draw card `k` on top of stack `j` — a proper continuation or any
/// card onto an empty stack — preserves the game invariant.
pub proof fn lemma_draw_to_table_preserves_wf(pre: Game, post: Game, k: int, j: int)
    requires
        game_wf(pre),
        0 <= k < pre.draw@.len(),
        0 <= j < 7,
        pre.table@[j].upturned@.len() == 0 || placement_match(
            pre.draw@[k],
            pre.table@[j].upturned@.last(),
        ),
        move_applied(
            pre,
            post,
            GameMove {
                from: CardPosition::DrawDeck { deck_index: k as i8 },
                to: CardPosition::TableUpturned {
                    stack_index: j as i8,
                    upturned_index: pre.table@[j].upturned@.len() as i8,
                },
            },
        ),
    ensures
        game_wf(post),
{
    broadcast use group_to_multiset_ensures;
    broadcast use group_multiset_axioms;

    lemma_wf_bounded(pre);
    let c = pre.draw@[k];
    let u_j = pre.table@[j].upturned@;
    assert(card_wf(c));
    assert(post.draw@ == pre.draw@.remove(k));
    assert(post.table@[j].upturned@ == u_j.insert(u_j.len() as int, c));
    assert(post.table@[j].upturned@ =~= u_j.push(c));
    lemma_insert_to_multiset(u_j, u_j.len() as int, c);
    assert(pre.draw@.contains(c));
    assert(pre.draw@.to_multiset().count(c) >= 1);
    assert(game_cards(post) =~= game_cards(pre));
    assert forall|t: int| 0 <= t < post.draw@.len() implies card_wf(#[trigger] post.draw@[t]) by {
        assert(post.draw@[t] == if t < k {
            pre.draw@[t]
        } else {
            pre.draw@[t + 1]
        });
    }
    assert forall|x: int| 0 <= x < 7 implies stack_wf(#[trigger] post.table@[x]) by {
        if x == j {
            assert(forall|t: int|
                0 <= t < u_j.len() ==> #[trigger] u_j.push(c)[t] == u_j[t]);
            assert(run_proper(u_j));
        }
    }
}

/// Along a proper run, rank drops by exactly one per position.
pub proof fn lemma_run_rank(u: Seq<Card>, a: int, b: int)
    requires
        run_proper(u),
        0 <= a <= b < u.len(),
    ensures
        u[b].number == u[a].number - (b - a),
    decreases b - a,
{
    if a < b {
        lemma_run_rank(u, a, b - 1);
        assert(u[b - 1 + 1].number == u[b - 1].number - 1);
    }
}

/// A non-empty foundation's top card's rank equals the foundation's length.
pub proof fn lemma_foundation_top_rank(g: Game, s: int)
    requires
        game_wf(g),
        0 <= s < 4,
        g.aces@[s].ace_stack@.len() > 0,
    ensures
        g.aces@[s].ace_stack@.last().number == g.aces@[s].ace_stack@.len(),
{
    let a = g.aces@[s].ace_stack@;
    let t = a.len() - 1;
    assert(a[t] == spec_card(s * 13 + t));
    assert((s * 13 + t) % 13 == t) by (nonlinear_arith)
        requires
            0 <= s < 4,
            0 <= t < 13,
    ;
}

// ---------------------------------------------------------------------------
// Termination measure
// ---------------------------------------------------------------------------
/// Cards already promoted to foundations.
pub open spec fn found_total(g: Game) -> int {
    g.aces@[0].ace_stack@.len() + g.aces@[1].ace_stack@.len() + g.aces@[2].ace_stack@.len()
        + g.aces@[3].ace_stack@.len() as int
}

/// Face-down cards remaining on the tableau.
pub open spec fn down_total(g: Game) -> int {
    g.table@[0].downturned@.len() + g.table@[1].downturned@.len() + g.table@[2].downturned@.len()
        + g.table@[3].downturned@.len() + g.table@[4].downturned@.len()
        + g.table@[5].downturned@.len() + g.table@[6].downturned@.len() as int
}

/// Cards remaining in the draw pile.
pub open spec fn draw_total(g: Game) -> int {
    g.draw@.len() as int
}

/// 0 when the stack has a pending flip (empty run over face-down cards),
/// 1 otherwise.
pub open spec fn stack_np(st: TableStack) -> int {
    if st.upturned@.len() == 0 && st.downturned@.len() > 0 {
        0
    } else {
        1
    }
}

/// Stacks without a pending flip.
pub open spec fn np_total(g: Game) -> int {
    stack_np(g.table@[0]) + stack_np(g.table@[1]) + stack_np(g.table@[2]) + stack_np(g.table@[3])
        + stack_np(g.table@[4]) + stack_np(g.table@[5]) + stack_np(g.table@[6])
}

/// 1 when the stack has a face-up run but no face-down cards beneath it.
pub open spec fn stack_z(st: TableStack) -> int {
    if st.downturned@.len() == 0 && st.upturned@.len() > 0 {
        1
    } else {
        0
    }
}

/// Stacks holding a bare face-up run.
pub open spec fn z_total(g: Game) -> int {
    stack_z(g.table@[0]) + stack_z(g.table@[1]) + stack_z(g.table@[2]) + stack_z(g.table@[3])
        + stack_z(g.table@[4]) + stack_z(g.table@[5]) + stack_z(g.table@[6])
}

/// `post` is strictly below `pre` in the termination order: lexicographic
/// over (cards not yet promoted, face-down cards, draw cards, stacks
/// without a pending flip, stacks holding a bare run). Every move the
/// solver can select shrinks this order, which bounds the loop.
pub open spec fn measure_lt(post: Game, pre: Game) -> bool {
    ||| found_total(post) > found_total(pre)
    ||| (found_total(post) == found_total(pre) && down_total(post) < down_total(pre))
    ||| (found_total(post) == found_total(pre) && down_total(post) == down_total(pre)
        && draw_total(post) < draw_total(pre))
    ||| (found_total(post) == found_total(pre) && down_total(post) == down_total(pre)
        && draw_total(post) == draw_total(pre) && np_total(post) < np_total(pre))
    ||| (found_total(post) == found_total(pre) && down_total(post) == down_total(pre)
        && draw_total(post) == draw_total(pre) && np_total(post) == np_total(pre) && z_total(post)
        < z_total(pre))
}

} // verus!
