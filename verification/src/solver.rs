//! The solver: a fixed-priority, non-backtracking loop that executes one
//! legal move per iteration until the game is won, lost, or stuck, with a
//! local positivity heuristic gating the optional move categories.

use vstd::prelude::*;
use crate::card::spec_same_color;
use crate::game::Game;
use crate::game::game_wf;
use crate::laws::down_total;
use crate::laws::draw_total;
use crate::laws::found_total;
use crate::laws::lemma_draw_ace_foundation_empty;
use crate::laws::lemma_draw_to_foundation_preserves_wf;
use crate::laws::lemma_draw_to_table_preserves_wf;
use crate::laws::lemma_flip_preserves_wf;
use crate::laws::lemma_foundation_top_rank;
use crate::laws::lemma_run_move_preserves_wf;
use crate::laws::lemma_run_rank;
use crate::laws::lemma_table_ace_foundation_empty;
use crate::laws::lemma_table_to_foundation_preserves_wf;
use crate::laws::lemma_wf_bounded;
use crate::laws::measure_lt;
use crate::laws::np_total;
use crate::laws::z_total;
use crate::moves::draw_promo_eligible;
use crate::moves::flip_eligible;
use crate::moves::game_bounded;
use crate::moves::is_deck_move_member;
use crate::moves::is_final_card_entry;
use crate::moves::is_flip_member;
use crate::moves::is_king_member;
use crate::moves::is_promo_member;
use crate::moves::is_table_ace_member;
use crate::moves::is_table_move_member;
use crate::moves::is_draw_ace_member;
use crate::moves::draw_ace_eligible;
use crate::moves::draw_king_queuing;
use crate::moves::first_vacant;
use crate::moves::lemma_deck_moves_members;
use crate::moves::lemma_draw_ace_members;
use crate::moves::lemma_final_cards_members;
use crate::moves::lemma_first_vacant_from;
use crate::moves::lemma_flip_members;
use crate::moves::lemma_king_members;
use crate::moves::lemma_promo_members;
use crate::moves::lemma_table_ace_members;
use crate::moves::lemma_table_moves_members;
use crate::moves::spec_ace_stack_moves;
use crate::moves::spec_deck_moves;
use crate::moves::spec_draw_ace_moves;
use crate::moves::spec_draw_ace_move;
use crate::moves::spec_draw_promo_move;
use crate::moves::spec_final_cards;
use crate::moves::spec_flip_move;
use crate::moves::spec_flip_moves;
use crate::moves::spec_king_move_from_draw;
use crate::moves::spec_king_move_from_table;
use crate::moves::spec_queuing_kings;
use crate::moves::spec_table_ace_move;
use crate::moves::spec_table_ace_moves;
use crate::moves::spec_table_king_moves;
use crate::moves::spec_table_moves;
use crate::moves::spec_table_promo_move;
use crate::moves::table_ace_eligible;
use crate::moves::table_king_queuing;
use crate::moves::table_promo_eligible;
use crate::state::CardPosition;
use crate::state::GameFinalState;
use crate::state::GameMove;
use crate::state::GameState;
use crate::state::foundations_full;
use crate::state::move_applied;
use crate::state::move_executable;

verus! {

// ---------------------------------------------------------------------------
// The positivity heuristic
// ---------------------------------------------------------------------------
/// The accesses the heuristic makes are in bounds; a move from a face-down
/// position or a foundation never reaches it.
pub open spec fn positivity_evaluable(g: Game, m: GameMove) -> bool {
    match m.from {
        CardPosition::TableUpturned { stack_index: i, upturned_index: _ } => {
            &&& g.table@.len() == 7
            &&& 0 <= i < 7
        },
        CardPosition::DrawDeck { deck_index: k } => {
            &&& g.table@.len() == 7
            &&& 0 <= k < g.draw@.len()
            &&& match m.to {
                CardPosition::TableUpturned { stack_index: j, upturned_index: _ } => 0 <= j < 7,
                _ => true,
            }
        },
        _ => false,
    }
}

/// Placing `c` would immediately enable a further table move: some stack's
/// run-bottom card is opposite in color and exactly one rank above `c`.
pub open spec fn enables_follow_move(g: Game, c: crate::card::Card) -> bool {
    exists|t: int|
        0 <= t < 7 && g.table@[t].upturned@.len() > 0 && !spec_same_color(
            c.suit,
            g.table@[t].upturned@[0].suit,
        ) && g.table@[t].upturned@[0].number == c.number + 1
}

/// The heuristic's verdict, a pure function of the game, the queuing-King
/// count and the move. A whole-run move is positive when it reveals a
/// face-down card or frees a slot some King is waiting for; a draw card is
/// positive when appended at a run's bottom where it enables a further
/// move; everything else is negative.
pub open spec fn spec_positive(g: Game, qk: int, m: GameMove) -> bool {
    match m.from {
        CardPosition::TableUpturned { stack_index: i, upturned_index: ui } => {
            &&& ui == 0
            &&& (g.table@[i as int].downturned@.len() > 0 || qk > 0)
        },
        CardPosition::DrawDeck { deck_index: k } => {
            match m.to {
                CardPosition::TableUpturned { stack_index: j, upturned_index: ti } => {
                    &&& ti as int == g.table@[j as int].upturned@.len()
                    &&& enables_follow_move(g, g.draw@[k as int])
                },
                _ => false,
            }
        },
        _ => false,
    }
}

/// The reason string reported beside each verdict.
pub open spec fn spec_positive_reason(g: Game, qk: int, m: GameMove) -> Seq<char> {
    match m.from {
        CardPosition::TableUpturned { stack_index: i, upturned_index: ui } => {
            if ui == 0 {
                if g.table@[i as int].downturned@.len() == 0 {
                    if qk > 0 {
                        " - - Positive move : creates space for king"@
                    } else {
                        " - - No queuing kings"@
                    }
                } else {
                    " - - Positive move : reveals a card"@
                }
            } else {
                ""@
            }
        },
        CardPosition::DrawDeck { deck_index: k } => {
            match m.to {
                CardPosition::TableUpturned { stack_index: j, upturned_index: ti } => {
                    if ti as int == g.table@[j as int].upturned@.len() {
                        if enables_follow_move(g, g.draw@[k as int]) {
                            " - - Positive move : enables a move"@
                        } else {
                            "doesn't enable a move"@
                        }
                    } else {
                        ""@
                    }
                },
                _ => ""@,
            }
        },
        _ => ""@,
    }
}

/// Decide whether an optional move is worth taking now, with the stated
/// reason. The verdict depends only on the game, the snapshot's
/// queuing-King count and the move itself.
pub fn is_move_positive(game_move: &GameMove, game: &Game, game_state: &GameState) -> (r: (
    bool,
    &'static str,
))
    requires
        positivity_evaluable(*game, *game_move),
    ensures
        r.0 == spec_positive(*game, game_state.queuing_kings as int, *game_move),
        r.1@ == spec_positive_reason(*game, game_state.queuing_kings as int, *game_move),
{
    match game_move.from {
        CardPosition::TableUpturned { stack_index, upturned_index } => {
            if upturned_index == 0 {
                if game.table[stack_index as usize].downturned.len() == 0 {
                    if game_state.queuing_kings > 0 {
                        (true, " - - Positive move : creates space for king")
                    } else {
                        (false, " - - No queuing kings")
                    }
                } else {
                    (true, " - - Positive move : reveals a card")
                }
            } else {
                (false, "")
            }
        },
        CardPosition::DrawDeck { deck_index } => {
            let card = game.draw[deck_index as usize];
            match game_move.to {
                CardPosition::TableUpturned { stack_index, upturned_index } => {
                    let to_len = game.table[stack_index as usize].upturned.len();
                    if upturned_index >= 0 && upturned_index as usize == to_len {
                        let mut t: usize = 0;
                        while t < 7
                            invariant
                                game.table@.len() == 7,
                                0 <= t <= 7,
                                0 <= stack_index < 7,
                                0 <= deck_index < game.draw@.len(),
                                card == game.draw@[deck_index as int],
                                game_move.from == (CardPosition::DrawDeck { deck_index }),
                                game_move.to == (CardPosition::TableUpturned {
                                    stack_index,
                                    upturned_index,
                                }),
                                upturned_index as int == game.table@[
                                    stack_index as int
                                ].upturned@.len(),
                                forall|x: int|
                                    0 <= x < t ==> !((#[trigger] game.table@[x]).upturned@.len()
                                        > 0 && !spec_same_color(
                                        card.suit,
                                        game.table@[x].upturned@[0].suit,
                                    ) && game.table@[x].upturned@[0].number == card.number + 1),
                            decreases 7 - t,
                        {
                            if game.table[t].upturned.len() > 0 {
                                let root_card = game.table[t].upturned[0];
                                if !card.suit.same_color(root_card.suit) {
                                    if root_card.number as i16 == card.number as i16 + 1 {
                                        return (true, " - - Positive move : enables a move");
                                    }
                                }
                            }
                            t = t + 1;
                        }
                        (false, "doesn't enable a move")
                    } else {
                        (false, "")
                    }
                },
                _ => (false, ""),
            }
        },
        _ => {
            vstd::pervasive::unreached()
        },
    }
}

/// The heuristic is deterministic: judged twice on an unchanged game and
/// an unchanged move, it returns one and the same verdict.
pub proof fn lemma_positivity_deterministic(
    g: Game,
    qk: int,
    m: GameMove,
    v1: bool,
    v2: bool,
)
    requires
        v1 == spec_positive(g, qk, m),
        v2 == spec_positive(g, qk, m),
    ensures
        v1 == v2,
{
}

// ---------------------------------------------------------------------------
// Move selection
// ---------------------------------------------------------------------------
/// The first move of `s`, from position `idx` on, that the heuristic
/// approves.
pub open spec fn first_positive_from(g: Game, qk: int, s: Seq<GameMove>, idx: int) -> Option<
    GameMove,
>
    decreases s.len() - idx,
{
    if idx < 0 || idx >= s.len() {
        None
    } else if spec_positive(g, qk, s[idx]) {
        Some(s[idx])
    } else {
        first_positive_from(g, qk, s, idx + 1)
    }
}

pub open spec fn first_positive(g: Game, qk: int, s: Seq<GameMove>) -> Option<GameMove> {
    first_positive_from(g, qk, s, 0)
}

/// The move one solver iteration selects, if any: the first flip, else the
/// first bare Ace (tableau, then draw), else the first King move, else the
/// first heuristic-approved move among promotions, table moves and draw
/// moves, in that order.
pub open spec fn spec_selected_move(g: Game) -> Option<GameMove> {
    let qk = spec_queuing_kings(g);
    let fc = spec_final_cards(g);
    if spec_flip_moves(g).len() > 0 {
        Some(spec_flip_moves(g)[0])
    } else if spec_table_ace_moves(g).len() > 0 {
        Some(spec_table_ace_moves(g)[0])
    } else if spec_draw_ace_moves(g).len() > 0 {
        Some(spec_draw_ace_moves(g)[0])
    } else if spec_table_king_moves(g).len() > 0 {
        Some(spec_table_king_moves(g)[0])
    } else if first_positive(g, qk, spec_ace_stack_moves(g)) is Some {
        first_positive(g, qk, spec_ace_stack_moves(g))
    } else if first_positive(g, qk, spec_table_moves(g, fc)) is Some {
        first_positive(g, qk, spec_table_moves(g, fc))
    } else if first_positive(g, qk, spec_deck_moves(g, fc)) is Some {
        first_positive(g, qk, spec_deck_moves(g, fc))
    } else {
        None
    }
}

/// All seven categories are empty.
pub open spec fn spec_all_moves_empty(g: Game) -> bool {
    &&& spec_flip_moves(g).len() == 0
    &&& spec_table_ace_moves(g).len() == 0
    &&& spec_draw_ace_moves(g).len() == 0
    &&& spec_table_king_moves(g).len() == 0
    &&& spec_ace_stack_moves(g).len() == 0
    &&& spec_table_moves(g, spec_final_cards(g)).len() == 0
    &&& spec_deck_moves(g, spec_final_cards(g)).len() == 0
}

/// The game's status, straight from the game itself.
pub open spec fn spec_game_status(g: Game) -> GameFinalState {
    if spec_all_moves_empty(g) {
        if foundations_full(g) {
            GameFinalState::WON
        } else {
            GameFinalState::LOST
        }
    } else {
        GameFinalState::UNFINISHED
    }
}

/// A heuristic-approved table-to-table move is executable: its source run
/// exists, its target is the position past another stack's top, and source
/// and target stacks differ.
proof fn lemma_table_move_executable(g: Game, m: GameMove)
    requires
        game_wf(g),
        is_table_move_member(g, spec_final_cards(g), m),
        exists|qk: int| spec_positive(g, qk, m),
    ensures
        move_executable(g, m),
{
    lemma_wf_bounded(g);
    let fc = spec_final_cards(g);
    let (i, k, f) = choose|i: int, k: int, f: int|
        {
            &&& 0 <= i < 7
            &&& 0 <= k < g.table@[i].upturned@.len()
            &&& 0 <= f < fc.len()
            &&& crate::moves::placement_match(g.table@[i].upturned@[k], fc[f].0)
            &&& m == (GameMove {
                from: CardPosition::TableUpturned {
                    stack_index: i as i8,
                    upturned_index: k as i8,
                },
                to: fc[f].1,
            })
        };
    lemma_final_cards_members(g, 7);
    assert(is_final_card_entry(g, crate::moves::final_cards_upto(g, 7)[f]));
    assert(is_final_card_entry(g, fc[f]));
    let j = choose|j: int|
        0 <= j < 7 && g.table@[j].upturned@.len() > 0 && fc[f] == (
            g.table@[j].upturned@.last(),
            CardPosition::TableUpturned {
                stack_index: j as i8,
                upturned_index: g.table@[j].upturned@.len() as i8,
            },
        );
    if i == j {
        lemma_run_rank(g.table@[i].upturned@, k, g.table@[i].upturned@.len() - 1);
    }
    assert(i != j);
}

/// Executing a heuristic-approved table-to-table move preserves the game
/// invariant and strictly shrinks the termination measure: it either
/// uncovers a face-down card (one fewer stack without a pending flip) or
/// empties a stack a King is waiting for (one fewer bare run).
#[verifier::rlimit(100)]
proof fn lemma_table_move_preserves(g: Game, post: Game, m: GameMove, qk: int)
    requires
        game_wf(g),
        is_table_move_member(g, spec_final_cards(g), m),
        spec_positive(g, qk, m),
        move_applied(g, post, m),
    ensures
        game_wf(post),
        measure_lt(post, g),
{
    lemma_wf_bounded(g);
    let fc = spec_final_cards(g);
    let (i, k, f) = choose|i: int, k: int, f: int|
        {
            &&& 0 <= i < 7
            &&& 0 <= k < g.table@[i].upturned@.len()
            &&& 0 <= f < fc.len()
            &&& crate::moves::placement_match(g.table@[i].upturned@[k], fc[f].0)
            &&& m == (GameMove {
                from: CardPosition::TableUpturned {
                    stack_index: i as i8,
                    upturned_index: k as i8,
                },
                to: fc[f].1,
            })
        };
    lemma_final_cards_members(g, 7);
    assert(is_final_card_entry(g, crate::moves::final_cards_upto(g, 7)[f]));
    assert(is_final_card_entry(g, fc[f]));
    let j = choose|j: int|
        0 <= j < 7 && g.table@[j].upturned@.len() > 0 && fc[f] == (
            g.table@[j].upturned@.last(),
            CardPosition::TableUpturned {
                stack_index: j as i8,
                upturned_index: g.table@[j].upturned@.len() as i8,
            },
        );
    assert(k == 0);
    if i == j {
        lemma_run_rank(g.table@[i].upturned@, 0, g.table@[i].upturned@.len() - 1);
    }
    assert(i != j);
    lemma_run_move_preserves_wf(g, post, i, 0, j);
    assert(measure_lt(post, g));
}

/// What one solver iteration did: executed one move, or stopped with the
/// game's status (`UNFINISHED` meaning stuck: moves remain but the
/// heuristic approves none).
#[derive(Clone, Copy, Debug, PartialEq, Eq, Structural)]
pub enum StepResult {
    Moved(GameMove),
    Finished(GameFinalState),
}

/// One solver iteration: recompute the snapshot, classify it, and execute
/// the single selected move, if any. Flips always come first; Kings are
/// considered only when the generator found a vacant slot; optional
/// categories pass through the positivity heuristic. Every executed move
/// keeps the game invariant and strictly shrinks the termination measure.
#[verifier::rlimit(100)]
pub fn step(game: &mut Game) -> (r: StepResult)
    requires
        game_wf(*old(game)),
    ensures
        game_wf(*final(game)),
        match spec_selected_move(*old(game)) {
            Some(m) => r == StepResult::Moved(m) && move_applied(*old(game), *final(game), m)
                && measure_lt(*final(game), *old(game)),
            None => r == StepResult::Finished(spec_game_status(*old(game))) && *final(game)
                == *old(game),
        },
        spec_flip_moves(*old(game)).len() > 0 ==> r == StepResult::Moved(
            spec_flip_moves(*old(game))[0],
        ),
{
    let ghost g0 = *game;
    proof {
        lemma_wf_bounded(g0);
    }
    let st = game.get_game_state();
    let status = st.get_final_state(game);
    match status {
        GameFinalState::UNFINISHED => {
            if st.table_flip_moves.len() > 0 {
                let m = st.table_flip_moves[0];
                proof {
                    lemma_flip_members(g0, 7);
                    assert(is_flip_member(g0, m));
                    let i = choose|i: int|
                        0 <= i < 7 && flip_eligible(g0, i) && m == spec_flip_move(g0, i);
                    assert(move_executable(g0, m));
                }
                m.execute(game);
                proof {
                    let i = choose|i: int|
                        0 <= i < 7 && flip_eligible(g0, i) && m == spec_flip_move(g0, i);
                    lemma_flip_preserves_wf(g0, *game, i);
                    assert(measure_lt(*game, g0));
                }
                return StepResult::Moved(m);
            }
            if st.table_ace_moves.len() > 0 {
                let m = st.table_ace_moves[0];
                proof {
                    lemma_table_ace_members(g0, 7);
                    assert(is_table_ace_member(g0, m));
                    let i = choose|i: int|
                        0 <= i < 7 && table_ace_eligible(g0, i) && m == spec_table_ace_move(g0, i);
                    lemma_table_ace_foundation_empty(g0, i);
                    assert(move_executable(g0, m));
                }
                m.execute(game);
                proof {
                    let i = choose|i: int|
                        0 <= i < 7 && table_ace_eligible(g0, i) && m == spec_table_ace_move(g0, i);
                    lemma_table_ace_foundation_empty(g0, i);
                    lemma_table_to_foundation_preserves_wf(g0, *game, i);
                    assert(measure_lt(*game, g0));
                }
                return StepResult::Moved(m);
            }
            if st.draw_ace_moves.len() > 0 {
                let m = st.draw_ace_moves[0];
                proof {
                    lemma_draw_ace_members(g0, g0.draw@.len() as int);
                    assert(is_draw_ace_member(g0, m));
                    let k = choose|k: int|
                        0 <= k < g0.draw@.len() && draw_ace_eligible(g0, k) && m
                            == spec_draw_ace_move(g0, k);
                    lemma_draw_ace_foundation_empty(g0, k);
                    assert(move_executable(g0, m));
                }
                m.execute(game);
                proof {
                    let k = choose|k: int|
                        0 <= k < g0.draw@.len() && draw_ace_eligible(g0, k) && m
                            == spec_draw_ace_move(g0, k);
                    lemma_draw_ace_foundation_empty(g0, k);
                    lemma_draw_to_foundation_preserves_wf(g0, *game, k);
                    assert(measure_lt(*game, g0));
                }
                return StepResult::Moved(m);
            }
            if st.table_king_moves.len() > 0 {
                let m = st.table_king_moves[0];
                proof {
                    lemma_king_members(g0);
                    assert(is_king_member(g0, m));
                    lemma_first_vacant_from(g0, 0);
                    assert(move_executable(g0, m));
                }
                m.execute(game);
                proof {
                    lemma_first_vacant_from(g0, 0);
                    let v = first_vacant(g0);
                    if exists|i: int|
                        0 <= i < 7 && table_king_queuing(g0, i) && m == spec_king_move_from_table(
                            g0,
                            i,
                        ) {
                        let i = choose|i: int|
                            0 <= i < 7 && table_king_queuing(g0, i) && m
                                == spec_king_move_from_table(g0, i);
                        lemma_run_move_preserves_wf(g0, *game, i, 0, v);
                        assert(measure_lt(*game, g0));
                    } else {
                        let k = choose|k: int|
                            0 <= k < g0.draw@.len() && draw_king_queuing(g0, k) && m
                                == spec_king_move_from_draw(g0, k);
                        lemma_draw_to_table_preserves_wf(g0, *game, k, v);
                        assert(measure_lt(*game, g0));
                    }
                }
                return StepResult::Moved(m);
            }
            let mut idx: usize = 0;
            while idx < st.ace_stack_moves.len()
                invariant
                    g0 == *old(game),
                    *game == g0,
                    game_wf(g0),
                    game_bounded(g0),
                    st.ace_stack_moves@ == spec_ace_stack_moves(g0),
                    st.table_moves@ == spec_table_moves(g0, spec_final_cards(g0)),
                    st.deck_moves@ == spec_deck_moves(g0, spec_final_cards(g0)),
                    st.queuing_kings as int == spec_queuing_kings(g0),
                    spec_flip_moves(g0).len() == 0,
                    spec_table_ace_moves(g0).len() == 0,
                    spec_draw_ace_moves(g0).len() == 0,
                    spec_table_king_moves(g0).len() == 0,
                    !spec_all_moves_empty(g0),
                    0 <= idx <= spec_ace_stack_moves(g0).len(),
                    first_positive(g0, spec_queuing_kings(g0), spec_ace_stack_moves(g0))
                        == first_positive_from(
                        g0,
                        spec_queuing_kings(g0),
                        spec_ace_stack_moves(g0),
                        idx as int,
                    ),
                decreases spec_ace_stack_moves(g0).len() - idx,
            {
                let m = st.ace_stack_moves[idx];
                proof {
                    lemma_promo_members(g0);
                    assert(m == spec_ace_stack_moves(g0)[idx as int]);
                    assert(is_promo_member(g0, m));
                }
                let (do_move, _reason) = is_move_positive(&m, game, &st);
                if do_move {
                    proof {
                        let qk = spec_queuing_kings(g0);
                        assert(spec_positive(g0, qk, m));
                        assert(first_positive(g0, qk, spec_ace_stack_moves(g0)) == Some(m));
                        if !(exists|i: int|
                            0 <= i < 7 && table_promo_eligible(g0, i) && m
                                == spec_table_promo_move(g0, i)) {
                            let k = choose|k: int|
                                0 <= k < g0.draw@.len() && draw_promo_eligible(g0, k) && m
                                    == spec_draw_promo_move(g0, k);
                            assert(!spec_positive(g0, qk, m));
                        }
                        let i = choose|i: int|
                            0 <= i < 7 && table_promo_eligible(g0, i) && m
                                == spec_table_promo_move(g0, i);
                        let s = g0.table@[i].upturned@.last().suit_index as int;
                        lemma_foundation_top_rank(g0, s);
                        assert(move_executable(g0, m));
                    }
                    m.execute(game);
                    proof {
                        let i = choose|i: int|
                            0 <= i < 7 && table_promo_eligible(g0, i) && m
                                == spec_table_promo_move(g0, i);
                        let s = g0.table@[i].upturned@.last().suit_index as int;
                        lemma_foundation_top_rank(g0, s);
                        lemma_table_to_foundation_preserves_wf(g0, *game, i);
                        assert(measure_lt(*game, g0));
                    }
                    return StepResult::Moved(m);
                }
                idx = idx + 1;
            }
            let mut idx: usize = 0;
            while idx < st.table_moves.len()
                invariant
                    g0 == *old(game),
                    *game == g0,
                    game_wf(g0),
                    game_bounded(g0),
                    st.table_moves@ == spec_table_moves(g0, spec_final_cards(g0)),
                    st.deck_moves@ == spec_deck_moves(g0, spec_final_cards(g0)),
                    st.queuing_kings as int == spec_queuing_kings(g0),
                    spec_flip_moves(g0).len() == 0,
                    spec_table_ace_moves(g0).len() == 0,
                    spec_draw_ace_moves(g0).len() == 0,
                    spec_table_king_moves(g0).len() == 0,
                    !spec_all_moves_empty(g0),
                    first_positive(g0, spec_queuing_kings(g0), spec_ace_stack_moves(g0)) is None,
                    0 <= idx <= spec_table_moves(g0, spec_final_cards(g0)).len(),
                    first_positive(
                        g0,
                        spec_queuing_kings(g0),
                        spec_table_moves(g0, spec_final_cards(g0)),
                    ) == first_positive_from(
                        g0,
                        spec_queuing_kings(g0),
                        spec_table_moves(g0, spec_final_cards(g0)),
                        idx as int,
                    ),
                decreases spec_table_moves(g0, spec_final_cards(g0)).len() - idx,
            {
                let m = st.table_moves[idx];
                let ghost fc = spec_final_cards(g0);
                proof {
                    lemma_table_moves_members(g0, fc, 7);
                    assert(m == spec_table_moves(g0, fc)[idx as int]);
                    assert(is_table_move_member(g0, fc, m));
                }
                let (do_move, _reason) = is_move_positive(&m, game, &st);
                if do_move {
                    proof {
                        let qk = spec_queuing_kings(g0);
                        assert(spec_positive(g0, qk, m));
                        assert(first_positive(g0, qk, spec_table_moves(g0, fc)) == Some(m));
                        lemma_table_move_executable(g0, m);
                    }
                    m.execute(game);
                    proof {
                        lemma_table_move_preserves(g0, *game, m, spec_queuing_kings(g0));
                    }
                    return StepResult::Moved(m);
                }
                idx = idx + 1;
            }
            let mut idx: usize = 0;
            while idx < st.deck_moves.len()
                invariant
                    g0 == *old(game),
                    *game == g0,
                    game_wf(g0),
                    game_bounded(g0),
                    st.deck_moves@ == spec_deck_moves(g0, spec_final_cards(g0)),
                    st.queuing_kings as int == spec_queuing_kings(g0),
                    spec_flip_moves(g0).len() == 0,
                    spec_table_ace_moves(g0).len() == 0,
                    spec_draw_ace_moves(g0).len() == 0,
                    spec_table_king_moves(g0).len() == 0,
                    !spec_all_moves_empty(g0),
                    first_positive(g0, spec_queuing_kings(g0), spec_ace_stack_moves(g0)) is None,
                    first_positive(
                        g0,
                        spec_queuing_kings(g0),
                        spec_table_moves(g0, spec_final_cards(g0)),
                    ) is None,
                    0 <= idx <= spec_deck_moves(g0, spec_final_cards(g0)).len(),
                    first_positive(
                        g0,
                        spec_queuing_kings(g0),
                        spec_deck_moves(g0, spec_final_cards(g0)),
                    ) == first_positive_from(
                        g0,
                        spec_queuing_kings(g0),
                        spec_deck_moves(g0, spec_final_cards(g0)),
                        idx as int,
                    ),
                decreases spec_deck_moves(g0, spec_final_cards(g0)).len() - idx,
            {
                let m = st.deck_moves[idx];
                let ghost fc = spec_final_cards(g0);
                proof {
                    lemma_deck_moves_members(g0, fc, g0.draw@.len() as int);
                    assert(m == spec_deck_moves(g0, fc)[idx as int]);
                    assert(is_deck_move_member(g0, fc, m));
                    let (k, f) = choose|k: int, f: int|
                        {
                            &&& 0 <= k < g0.draw@.len()
                            &&& 0 <= f < fc.len()
                            &&& crate::moves::placement_match(g0.draw@[k], fc[f].0)
                            &&& m == (GameMove {
                                from: CardPosition::DrawDeck { deck_index: k as i8 },
                                to: fc[f].1,
                            })
                        };
                    lemma_final_cards_members(g0, 7);
                    assert(is_final_card_entry(g0, crate::moves::final_cards_upto(g0, 7)[f]));
                    assert(is_final_card_entry(g0, fc[f]));
                    assert(positivity_evaluable(g0, m));
                }
                let (do_move, _reason) = is_move_positive(&m, game, &st);
                if do_move {
                    proof {
                        let qk = spec_queuing_kings(g0);
                        assert(spec_positive(g0, qk, m));
                        assert(first_positive(g0, qk, spec_deck_moves(g0, fc)) == Some(m));
                        let (k, f) = choose|k: int, f: int|
                            {
                                &&& 0 <= k < g0.draw@.len()
                                &&& 0 <= f < fc.len()
                                &&& crate::moves::placement_match(g0.draw@[k], fc[f].0)
                                &&& m == (GameMove {
                                    from: CardPosition::DrawDeck { deck_index: k as i8 },
                                    to: fc[f].1,
                                })
                            };
                        lemma_final_cards_members(g0, 7);
                        assert(is_final_card_entry(g0, crate::moves::final_cards_upto(g0, 7)[f]));
                        assert(is_final_card_entry(g0, fc[f]));
                        assert(move_executable(g0, m));
                    }
                    m.execute(game);
                    proof {
                        let fc2 = spec_final_cards(g0);
                        let (k, f) = choose|k: int, f: int|
                            {
                                &&& 0 <= k < g0.draw@.len()
                                &&& 0 <= f < fc2.len()
                                &&& crate::moves::placement_match(g0.draw@[k], fc2[f].0)
                                &&& m == (GameMove {
                                    from: CardPosition::DrawDeck { deck_index: k as i8 },
                                    to: fc2[f].1,
                                })
                            };
                        lemma_final_cards_members(g0, 7);
                        assert(is_final_card_entry(g0, crate::moves::final_cards_upto(g0, 7)[f]));
                        assert(is_final_card_entry(g0, fc2[f]));
                        let j = choose|j: int|
                            0 <= j < 7 && g0.table@[j].upturned@.len() > 0 && fc2[f] == (
                                g0.table@[j].upturned@.last(),
                                CardPosition::TableUpturned {
                                    stack_index: j as i8,
                                    upturned_index: g0.table@[j].upturned@.len() as i8,
                                },
                            );
                        lemma_draw_to_table_preserves_wf(g0, *game, k, j);
                        assert(measure_lt(*game, g0));
                    }
                    return StepResult::Moved(m);
                }
                idx = idx + 1;
            }
            StepResult::Finished(GameFinalState::UNFINISHED)
        },
        _ => {
            StepResult::Finished(status)
        },
    }
}

/// Drive the game to completion: one selected move per iteration, until
/// the game is won, lost, or stuck with no heuristic-approved move left.
/// The result is the final game's own status; `WON` implies all four
/// foundations are full. The loop terminates because every executed move
/// strictly shrinks the termination measure.
pub fn solve(game: &mut Game) -> (r: GameFinalState)
    requires
        game_wf(*old(game)),
    ensures
        game_wf(*final(game)),
        r == spec_game_status(*final(game)),
        r == GameFinalState::WON ==> foundations_full(*final(game)),
        r != GameFinalState::UNFINISHED ==> spec_all_moves_empty(*final(game)),
        r == GameFinalState::UNFINISHED ==> spec_selected_move(*final(game)) is None
            && !spec_all_moves_empty(*final(game)),
{
    loop
        invariant
            game_wf(*game),
        decreases
                52 - found_total(*game),
                down_total(*game),
                draw_total(*game),
                np_total(*game),
                z_total(*game),
    {
        let ghost pre = *game;
        match step(game) {
            StepResult::Finished(s) => {
                proof {
                    assert(spec_selected_move(pre) is None);
                }
                return s;
            },
            StepResult::Moved(_m) => {
            },
        }
    }
}

} // verus!
