use solitare::card::Card;
use solitare::card::Suit;
use solitare::game::AceStack;
use solitare::game::Game;
use solitare::game::TableStack;
use solitare::solver::is_move_positive;
use solitare::solver::solve;
use solitare::solver::step;
use solitare::solver::StepResult;
use solitare::state::CardPosition;
use solitare::state::GameFinalState;
use solitare::state::GameMove;

fn empty_stack() -> TableStack {
    TableStack {
        downturned: Vec::new(),
        upturned: Vec::new(),
    }
}

fn empty_game() -> Game {
    Game {
        table: (0..7).map(|_| empty_stack()).collect(),
        aces: (0..4).map(|_| AceStack { ace_stack: Vec::new() }).collect(),
        draw: Vec::new(),
    }
}

/// A full suit run Ace..=rank for foundation `suit_index`.
fn foundation_run(suit_index: i8, upto_rank: i8) -> AceStack {
    AceStack {
        ace_stack: (0..upto_rank).map(|t| Card::new(suit_index * 13 + t)).collect(),
    }
}

fn total_cards(game: &Game) -> usize {
    let table: usize = game
        .table
        .iter()
        .map(|st| st.downturned.len() + st.upturned.len())
        .sum();
    let aces: usize = game.aces.iter().map(|a| a.ace_stack.len()).sum();
    table + aces + game.draw.len()
}

fn card_ids_sorted(game: &Game) -> Vec<i8> {
    let mut ids: Vec<i8> = Vec::new();
    for st in &game.table {
        for c in st.downturned.iter().chain(st.upturned.iter()) {
            ids.push(c.suit_index * 13 + c.number - 1);
        }
    }
    for a in &game.aces {
        for c in &a.ace_stack {
            ids.push(c.suit_index * 13 + c.number - 1);
        }
    }
    for c in &game.draw {
        ids.push(c.suit_index * 13 + c.number - 1);
    }
    ids.sort();
    ids
}

// ---------------------------------------------------------------------------
// Card and Suit
// ---------------------------------------------------------------------------
#[test]
fn card_new_encodes_suit_and_rank() {
    let c = Card::new(0);
    assert_eq!(c.suit, Suit::HEARTS);
    assert_eq!(c.suit_index, 0);
    assert_eq!(c.number, 1);
    let c = Card::new(12);
    assert_eq!(c.suit, Suit::HEARTS);
    assert_eq!(c.number, 13);
    let c = Card::new(13);
    assert_eq!(c.suit, Suit::DIAMONDS);
    assert_eq!(c.number, 1);
    let c = Card::new(51);
    assert_eq!(c.suit, Suit::SPADES);
    assert_eq!(c.suit_index, 3);
    assert_eq!(c.number, 13);
}

#[test]
fn suit_from_index_maps_all_four() {
    assert_eq!(Suit::from_index(0), Suit::HEARTS);
    assert_eq!(Suit::from_index(1), Suit::DIAMONDS);
    assert_eq!(Suit::from_index(2), Suit::CLUBS);
    assert_eq!(Suit::from_index(3), Suit::SPADES);
}

#[test]
fn same_color_pairs_reds_and_blacks() {
    assert!(Suit::HEARTS.same_color(Suit::DIAMONDS));
    assert!(Suit::CLUBS.same_color(Suit::SPADES));
    assert!(!Suit::HEARTS.same_color(Suit::SPADES));
    assert!(!Suit::DIAMONDS.same_color(Suit::CLUBS));
    assert!(Suit::HEARTS.same_color(Suit::HEARTS));
}

// ---------------------------------------------------------------------------
// Dealing
// ---------------------------------------------------------------------------
#[test]
fn golden_deal_with_identity_deck() {
    // dealing the fixed identifier sequence 0,1,...,51 with no shuffle must
    // reproduce the triangular layout exactly
    let deck: Vec<Card> = (0..52).map(Card::new).collect();
    let game = Game::new_with_deck(deck);
    let offsets = [0, 1, 3, 6, 10, 15, 21];
    for i in 0..7 {
        let stack = &game.table[i];
        assert_eq!(stack.downturned.len(), i);
        assert_eq!(stack.upturned.len(), 1);
        for k in 0..i {
            let c = stack.downturned[k];
            assert_eq!(c.suit_index as usize * 13 + c.number as usize - 1, offsets[i] + k);
        }
        let top = stack.upturned[0];
        assert_eq!(top.suit_index as usize * 13 + top.number as usize - 1, offsets[i] + i);
    }
    assert_eq!(game.draw.len(), 24);
    for k in 0..24 {
        let c = game.draw[k];
        assert_eq!(c.suit_index as usize * 13 + c.number as usize - 1, 28 + k);
    }
    for a in &game.aces {
        assert!(a.ace_stack.is_empty());
    }
}

#[test]
fn new_game_owns_the_whole_deck_once() {
    let game = Game::new();
    assert_eq!(total_cards(&game), 52);
    let ids = card_ids_sorted(&game);
    let expected: Vec<i8> = (0..52).collect();
    assert_eq!(ids, expected);
    for (i, st) in game.table.iter().enumerate() {
        assert_eq!(st.downturned.len(), i);
        assert_eq!(st.upturned.len(), 1);
    }
    assert_eq!(game.draw.len(), 24);
}

// ---------------------------------------------------------------------------
// Move generation
// ---------------------------------------------------------------------------
#[test]
fn flip_move_generated_for_empty_run_over_downturned() {
    let mut game = empty_game();
    game.table[2].downturned = vec![Card::new(5), Card::new(9)];
    let moves = game.get_table_flip_moves();
    assert_eq!(moves.len(), 1);
    assert_eq!(
        moves[0],
        GameMove {
            from: CardPosition::TableDownturned { stack_index: 2, downturned_index: 1 },
            to: CardPosition::TableUpturned { stack_index: 2, upturned_index: 0 },
        }
    );
}

#[test]
fn table_ace_move_generated_for_exposed_ace() {
    let mut game = empty_game();
    game.table[1].upturned = vec![Card::new(20), Card::new(26)]; // diamonds 8, clubs 1
    let moves = game.get_table_ace_moves();
    assert_eq!(moves.len(), 1);
    assert_eq!(
        moves[0],
        GameMove {
            from: CardPosition::TableUpturned { stack_index: 1, upturned_index: 1 },
            to: CardPosition::Ace { suit_index: 2 },
        }
    );
}

#[test]
fn draw_ace_moves_generated_for_every_ace_in_draw() {
    let mut game = empty_game();
    game.draw = vec![Card::new(5), Card::new(0), Card::new(39)]; // hearts 6, hearts A, spades A
    let moves = game.get_draw_ace_moves();
    assert_eq!(moves.len(), 2);
    assert_eq!(
        moves[0],
        GameMove {
            from: CardPosition::DrawDeck { deck_index: 1 },
            to: CardPosition::Ace { suit_index: 0 },
        }
    );
    assert_eq!(
        moves[1],
        GameMove {
            from: CardPosition::DrawDeck { deck_index: 2 },
            to: CardPosition::Ace { suit_index: 3 },
        }
    );
}

#[test]
fn king_moves_target_first_vacant_stack() {
    let mut game = empty_game();
    // a King at the bottom of stack 0's run, over a face-down card: queuing
    game.table[0].downturned = vec![Card::new(4)];
    game.table[0].upturned = vec![Card::new(12)]; // hearts K
    // stack 1 occupied so the first vacant stack is 2
    game.table[1].upturned = vec![Card::new(17)];
    // a King in the draw pile also queues
    game.draw = vec![Card::new(25)]; // diamonds K
    let (moves, queuing) = game.get_table_king_moves();
    assert_eq!(queuing, 2);
    assert_eq!(moves.len(), 2);
    assert_eq!(
        moves[0],
        GameMove {
            from: CardPosition::TableUpturned { stack_index: 0, upturned_index: 0 },
            to: CardPosition::TableUpturned { stack_index: 2, upturned_index: 0 },
        }
    );
    assert_eq!(
        moves[1],
        GameMove {
            from: CardPosition::DrawDeck { deck_index: 0 },
            to: CardPosition::TableUpturned { stack_index: 2, upturned_index: 0 },
        }
    );
}

#[test]
fn king_moves_empty_without_a_vacant_stack() {
    // Kings queue, but every stack is occupied: the category emits nothing
    let mut game = empty_game();
    for i in 0..7 {
        game.table[i].upturned = vec![Card::new(14 + i as i8)];
    }
    game.table[0].downturned = vec![Card::new(4)];
    game.table[0].upturned = vec![Card::new(12)]; // queuing King
    game.draw = vec![Card::new(25)]; // another King
    let (moves, queuing) = game.get_table_king_moves();
    assert_eq!(queuing, 2);
    assert!(moves.is_empty());
}

#[test]
fn ace_stack_moves_promote_next_rank_from_table_and_draw() {
    let mut game = empty_game();
    game.aces[0] = foundation_run(0, 3); // hearts up to 3
    game.aces[2] = foundation_run(2, 7); // clubs up to 7
    game.table[4].upturned = vec![Card::new(40), Card::new(3)]; // spades 2, hearts 4
    game.draw = vec![Card::new(33), Card::new(7)]; // clubs 8, hearts 8
    let moves = game.get_ace_stack_moves();
    assert_eq!(moves.len(), 2);
    assert_eq!(
        moves[0],
        GameMove {
            from: CardPosition::TableUpturned { stack_index: 4, upturned_index: 1 },
            to: CardPosition::Ace { suit_index: 0 },
        }
    );
    assert_eq!(
        moves[1],
        GameMove {
            from: CardPosition::DrawDeck { deck_index: 0 },
            to: CardPosition::Ace { suit_index: 2 },
        }
    );
}

#[test]
fn table_moves_match_opposite_color_consecutive_rank() {
    let mut game = empty_game();
    game.table[0].upturned = vec![Card::new(31)]; // clubs 6
    game.table[3].upturned = vec![Card::new(4)]; // hearts 5
    let state = game.get_game_state();
    assert_eq!(state.table_moves.len(), 1);
    assert_eq!(
        state.table_moves[0],
        GameMove {
            from: CardPosition::TableUpturned { stack_index: 3, upturned_index: 0 },
            to: CardPosition::TableUpturned { stack_index: 0, upturned_index: 1 },
        }
    );
}

#[test]
fn deck_moves_match_draw_cards_against_tops() {
    let mut game = empty_game();
    game.table[2].upturned = vec![Card::new(18)]; // diamonds 6
    game.draw = vec![Card::new(30), Card::new(43)]; // clubs 5, spades 5
    let state = game.get_game_state();
    assert_eq!(state.deck_moves.len(), 2);
    assert_eq!(
        state.deck_moves[0],
        GameMove {
            from: CardPosition::DrawDeck { deck_index: 0 },
            to: CardPosition::TableUpturned { stack_index: 2, upturned_index: 1 },
        }
    );
}

// ---------------------------------------------------------------------------
// Move execution
// ---------------------------------------------------------------------------
#[test]
fn execute_flip_turns_top_downturned_card_up() {
    let mut game = empty_game();
    game.table[1].downturned = vec![Card::new(6), Card::new(22)];
    let mv = GameMove {
        from: CardPosition::TableDownturned { stack_index: 1, downturned_index: 1 },
        to: CardPosition::TableUpturned { stack_index: 1, upturned_index: 0 },
    };
    mv.execute(&mut game);
    assert_eq!(game.table[1].downturned.len(), 1);
    assert_eq!(game.table[1].upturned, vec![Card::new(22)]);
}

#[test]
fn execute_run_move_carries_whole_suffix_in_order() {
    let mut game = empty_game();
    // stack 0: clubs 9 with hearts 8, spades 7 on top of it
    game.table[0].upturned = vec![Card::new(34), Card::new(7), Card::new(45)];
    // stack 5: diamonds 9 under nothing; its position past the top is 1
    game.table[5].upturned = vec![Card::new(21)];
    // move the run starting at hearts 8 onto diamonds 9
    let mv = GameMove {
        from: CardPosition::TableUpturned { stack_index: 0, upturned_index: 1 },
        to: CardPosition::TableUpturned { stack_index: 5, upturned_index: 1 },
    };
    mv.execute(&mut game);
    assert_eq!(game.table[0].upturned, vec![Card::new(34)]);
    assert_eq!(
        game.table[5].upturned,
        vec![Card::new(21), Card::new(7), Card::new(45)]
    );
}

#[test]
fn execute_promotions_stack_ascending_on_foundation() {
    let mut game = empty_game();
    game.table[3].upturned = vec![Card::new(13)]; // diamonds A
    game.draw = vec![Card::new(14)]; // diamonds 2
    let mv = GameMove {
        from: CardPosition::TableUpturned { stack_index: 3, upturned_index: 0 },
        to: CardPosition::Ace { suit_index: 1 },
    };
    mv.execute(&mut game);
    let mv = GameMove {
        from: CardPosition::DrawDeck { deck_index: 0 },
        to: CardPosition::Ace { suit_index: 1 },
    };
    mv.execute(&mut game);
    assert_eq!(game.aces[1].ace_stack, vec![Card::new(13), Card::new(14)]);
    assert!(game.table[3].upturned.is_empty());
    assert!(game.draw.is_empty());
}

#[test]
fn execute_preserves_card_ownership_partition() {
    let deck: Vec<Card> = (0..52).map(Card::new).collect();
    let mut game = Game::new_with_deck(deck);
    let ids_before = card_ids_sorted(&game);
    // play spades 2 (id 40, draw position 12) onto stack 1's hearts 3
    let mv = GameMove {
        from: CardPosition::DrawDeck { deck_index: 12 },
        to: CardPosition::TableUpturned { stack_index: 1, upturned_index: 1 },
    };
    mv.execute(&mut game);
    assert_eq!(game.table[1].upturned, vec![Card::new(2), Card::new(40)]);
    assert_eq!(total_cards(&game), 52);
    assert_eq!(card_ids_sorted(&game), ids_before);
}

// ---------------------------------------------------------------------------
// Status classification
// ---------------------------------------------------------------------------
#[test]
fn full_foundations_and_empty_containers_classify_as_won() {
    let mut game = empty_game();
    for s in 0..4 {
        game.aces[s as usize] = foundation_run(s, 13);
    }
    assert_eq!(total_cards(&game), 52);
    let state = game.get_game_state();
    assert_eq!(state.get_final_state(&game), GameFinalState::WON);
}

#[test]
fn no_legal_move_and_partial_foundations_classify_as_lost() {
    // every run non-empty, no Aces exposed, no Kings queuing with a vacant
    // slot, and no cross-stack color/rank match anywhere
    let mut game = empty_game();
    for i in 0..7 {
        // hearts 2..=8: all red, so no table-to-table match can exist
        game.table[i].upturned = vec![Card::new(1 + i as i8)];
    }
    // black Queens in the draw pile: no top card has rank 13
    game.draw = vec![Card::new(37), Card::new(50)];
    let state = game.get_game_state();
    assert_eq!(state.table_flip_moves.len(), 0);
    assert_eq!(state.table_ace_moves.len(), 0);
    assert_eq!(state.draw_ace_moves.len(), 0);
    assert_eq!(state.table_king_moves.len(), 0);
    assert_eq!(state.ace_stack_moves.len(), 0);
    assert_eq!(state.table_moves.len(), 0);
    assert_eq!(state.deck_moves.len(), 0);
    assert_eq!(state.get_final_state(&game), GameFinalState::LOST);
}

#[test]
fn unfinished_while_any_move_remains() {
    let mut game = empty_game();
    game.table[0].downturned = vec![Card::new(30)];
    let state = game.get_game_state();
    assert_eq!(state.get_final_state(&game), GameFinalState::UNFINISHED);
}

#[test]
fn get_all_moves_youch_concatenates_all_categories() {
    let mut game = empty_game();
    game.table[0].downturned = vec![Card::new(30)]; // one flip move
    game.table[1].upturned = vec![Card::new(0)]; // one exposed Ace
    let state = game.get_game_state();
    let all = state.get_all_moves_youch();
    assert_eq!(all.len(), state.table_flip_moves.len() + state.table_ace_moves.len());
    assert_eq!(all[0], state.table_flip_moves[0]);
    assert_eq!(all[1], state.table_ace_moves[0]);
}

// ---------------------------------------------------------------------------
// Positivity heuristic
// ---------------------------------------------------------------------------
#[test]
fn run_move_revealing_a_card_is_positive() {
    let mut game = empty_game();
    game.table[0].downturned = vec![Card::new(8)];
    game.table[0].upturned = vec![Card::new(31)]; // clubs 6
    game.table[2].upturned = vec![Card::new(6)]; // hearts 7
    let state = game.get_game_state();
    assert_eq!(state.table_moves.len(), 1);
    let (positive, reason) = is_move_positive(&state.table_moves[0], &game, &state);
    assert!(positive);
    assert_eq!(reason, " - - Positive move : reveals a card");
}

#[test]
fn run_move_without_queuing_kings_is_negative() {
    let mut game = empty_game();
    game.table[0].upturned = vec![Card::new(31)]; // clubs 6, nothing beneath
    game.table[2].upturned = vec![Card::new(6)]; // hearts 7
    let state = game.get_game_state();
    assert_eq!(state.queuing_kings, 0);
    let (positive, reason) = is_move_positive(&state.table_moves[0], &game, &state);
    assert!(!positive);
    assert_eq!(reason, " - - No queuing kings");
}

#[test]
fn run_move_freeing_a_slot_for_a_queuing_king_is_positive() {
    let mut game = empty_game();
    game.table[0].upturned = vec![Card::new(31)]; // clubs 6, nothing beneath
    game.table[2].upturned = vec![Card::new(6)]; // hearts 7
    game.draw = vec![Card::new(12)]; // hearts K queues
    let state = game.get_game_state();
    assert_eq!(state.queuing_kings, 1);
    let mv = GameMove {
        from: CardPosition::TableUpturned { stack_index: 0, upturned_index: 0 },
        to: CardPosition::TableUpturned { stack_index: 2, upturned_index: 1 },
    };
    let (positive, reason) = is_move_positive(&mv, &game, &state);
    assert!(positive);
    assert_eq!(reason, " - - Positive move : creates space for king");
}

#[test]
fn draw_move_enabling_a_follow_up_is_positive() {
    let mut game = empty_game();
    // stack 0 run: clubs 7 with hearts 6 on top; spades 5 may append there
    game.table[0].upturned = vec![Card::new(32), Card::new(5)];
    // stack 1's run-bottom diamonds 6 would then move onto the spades 5
    game.table[1].upturned = vec![Card::new(18)];
    game.draw = vec![Card::new(43)]; // spades 5
    let state = game.get_game_state();
    let mv = GameMove {
        from: CardPosition::DrawDeck { deck_index: 0 },
        to: CardPosition::TableUpturned { stack_index: 0, upturned_index: 2 },
    };
    let (positive, reason) = is_move_positive(&mv, &game, &state);
    assert!(positive);
    assert_eq!(reason, " - - Positive move : enables a move");
}

#[test]
fn draw_move_enabling_nothing_is_negative() {
    let mut game = empty_game();
    // stack 0 run: clubs 7 with hearts 6 on top; spades 5 may append there,
    // but no stack's run-bottom card could then move onto it
    game.table[0].upturned = vec![Card::new(32), Card::new(5)];
    game.draw = vec![Card::new(43)]; // spades 5
    let state = game.get_game_state();
    let mv = GameMove {
        from: CardPosition::DrawDeck { deck_index: 0 },
        to: CardPosition::TableUpturned { stack_index: 0, upturned_index: 2 },
    };
    let (positive, reason) = is_move_positive(&mv, &game, &state);
    assert!(!positive);
    assert_eq!(reason, "doesn't enable a move");
}

#[test]
fn heuristic_verdict_is_stable_across_reevaluation() {
    // re-evaluating positivity on an unchanged state for an unchanged move
    // yields the same verdict
    let mut game = empty_game();
    game.table[0].downturned = vec![Card::new(8)];
    game.table[0].upturned = vec![Card::new(31)];
    game.table[2].upturned = vec![Card::new(6)];
    let state = game.get_game_state();
    let mv = state.table_moves[0];
    let first = is_move_positive(&mv, &game, &state);
    let second = is_move_positive(&mv, &game, &state);
    assert_eq!(first, second);
}

// ---------------------------------------------------------------------------
// The solver loop
// ---------------------------------------------------------------------------
#[test]
fn step_prefers_a_flip_over_everything_else() {
    // both a pending flip and other populated categories: the flip runs first
    let mut game = empty_game();
    game.table[0].downturned = vec![Card::new(30)]; // pending flip
    game.table[1].upturned = vec![Card::new(0)]; // exposed Ace
    game.draw = vec![Card::new(13)]; // another Ace in the draw pile
    let r = step(&mut game);
    assert_eq!(
        r,
        StepResult::Moved(GameMove {
            from: CardPosition::TableDownturned { stack_index: 0, downturned_index: 0 },
            to: CardPosition::TableUpturned { stack_index: 0, upturned_index: 0 },
        })
    );
    assert!(game.table[0].downturned.is_empty());
    assert_eq!(game.table[0].upturned, vec![Card::new(30)]);
}

#[test]
fn step_promotes_exposed_aces_before_kings() {
    let mut game = empty_game();
    game.table[1].upturned = vec![Card::new(0)]; // hearts A
    game.table[2].downturned = vec![Card::new(7)];
    game.table[2].upturned = vec![Card::new(12)]; // queuing hearts K, slot 0 vacant
    let r = step(&mut game);
    assert_eq!(
        r,
        StepResult::Moved(GameMove {
            from: CardPosition::TableUpturned { stack_index: 1, upturned_index: 0 },
            to: CardPosition::Ace { suit_index: 0 },
        })
    );
    assert_eq!(game.aces[0].ace_stack, vec![Card::new(0)]);
}

#[test]
fn step_reports_won_when_everything_is_on_the_foundations() {
    let mut game = empty_game();
    for s in 0..4 {
        game.aces[s as usize] = foundation_run(s, 13);
    }
    let r = step(&mut game);
    assert_eq!(r, StepResult::Finished(GameFinalState::WON));
}

#[test]
fn solve_reports_lost_on_a_dead_position() {
    let mut game = empty_game();
    for i in 0..7 {
        game.table[i].upturned = vec![Card::new(1 + i as i8)];
    }
    game.draw = vec![Card::new(37), Card::new(50)];
    let r = solve(&mut game);
    assert_eq!(r, GameFinalState::LOST);
}

#[test]
fn solve_reports_unfinished_when_only_negative_moves_remain() {
    // a lone King could be promoted to win, but promoting it reveals nothing
    // and no King queues, so the heuristic declines: stuck, not lost
    let mut game = empty_game();
    game.aces[0] = foundation_run(0, 13);
    game.aces[1] = foundation_run(1, 13);
    game.aces[2] = foundation_run(2, 13);
    game.aces[3] = foundation_run(3, 12);
    game.table[0].upturned = vec![Card::new(51)]; // spades K
    assert_eq!(total_cards(&game), 52);
    let r = solve(&mut game);
    assert_eq!(r, GameFinalState::UNFINISHED);
    // the rejected promotion is still enumerable for diagnosis
    let state = game.get_game_state();
    let rejected = state.get_all_moves_youch();
    assert_eq!(rejected.len(), 1);
    let (positive, reason) = is_move_positive(&rejected[0], &game, &state);
    assert!(!positive);
    assert_eq!(reason, " - - No queuing kings");
}

#[test]
fn solve_terminates_on_a_fresh_deal_and_keeps_the_deck_partitioned() {
    let deck: Vec<Card> = (0..52).map(Card::new).collect();
    let mut game = Game::new_with_deck(deck);
    let r = solve(&mut game);
    assert_eq!(total_cards(&game), 52);
    let expected: Vec<i8> = (0..52).collect();
    assert_eq!(card_ids_sorted(&game), expected);
    assert!(matches!(
        r,
        GameFinalState::WON | GameFinalState::LOST | GameFinalState::UNFINISHED
    ));
}

#[test]
fn solve_terminates_on_shuffled_games() {
    for _ in 0..5 {
        let mut game = Game::new();
        let _ = solve(&mut game);
        assert_eq!(total_cards(&game), 52);
        let expected: Vec<i8> = (0..52).collect();
        assert_eq!(card_ids_sorted(&game), expected);
    }
}

#[test]
fn solve_moves_a_king_flips_the_card_beneath_then_sticks() {
    // diamonds K over a hidden diamonds Q on an otherwise finished board:
    // the queuing K moves to the first vacant stack, the Q flips face up,
    // and then the policy declines every remaining promotion (nothing left
    // reveals a card and no King queues any more), so the game sticks
    let mut game = empty_game();
    game.aces[0] = foundation_run(0, 13);
    game.aces[1] = foundation_run(1, 11); // diamonds up to J
    game.aces[2] = foundation_run(2, 13);
    game.aces[3] = foundation_run(3, 13);
    game.table[0].downturned = vec![Card::new(24)]; // diamonds Q
    game.table[0].upturned = vec![Card::new(25)]; // diamonds K
    assert_eq!(total_cards(&game), 52);
    let r = solve(&mut game);
    assert_eq!(r, GameFinalState::UNFINISHED);
    assert!(game.table[0].downturned.is_empty());
    assert_eq!(game.table[0].upturned, vec![Card::new(24)]);
    assert_eq!(game.table[1].upturned, vec![Card::new(25)]);
    assert_eq!(game.aces[1].ace_stack.len(), 11);
}

// ---------------------------------------------------------------------------
// Move descriptions
// ---------------------------------------------------------------------------
#[test]
fn debug_move_describes_source_and_destination() {
    let mv = GameMove {
        from: CardPosition::TableUpturned { stack_index: 3, upturned_index: 12 },
        to: CardPosition::Ace { suit_index: 2 },
    };
    assert_eq!(mv.debug_move(), "Moving from stack 3 upturned 12 to ace 2");
    let mv = GameMove {
        from: CardPosition::DrawDeck { deck_index: 23 },
        to: CardPosition::TableUpturned { stack_index: 0, upturned_index: 7 },
    };
    assert_eq!(mv.debug_move(), "Moving from draw 23 to stack 0 upturned 7");
    let mv = GameMove {
        from: CardPosition::TableDownturned { stack_index: 6, downturned_index: 5 },
        to: CardPosition::TableUpturned { stack_index: 6, upturned_index: 0 },
    };
    assert_eq!(
        mv.debug_move(),
        "Moving from stack 6 downturned 5 to stack 6 upturned 0"
    );
}
