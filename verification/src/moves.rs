//! Move generation: from a game snapshot, the seven categories of currently
//! legal moves, each produced in a fixed traversal order (stack index
//! ascending, then card position ascending).
//!
//! Each generator's contract equates its result with a specification-level
//! mirror of the same traversal, so the produced list is pinned down exactly.

use vstd::prelude::*;
use crate::card::Card;
use crate::game::Game;
use crate::game::all_cards_wf;
use crate::game::game_dims;
use crate::state::CardPosition;
use crate::state::GameMove;
use crate::state::GameState;
use crate::card::spec_same_color;

verus! {

/// Container sizes small enough for `i8` indexes and every card well
/// formed; implied by the game invariant (`lemma_wf_bounded`), but usable
/// on hand-built games too.
pub open spec fn game_bounded(g: Game) -> bool {
    &&& game_dims(g)
    &&& forall|i: int|
        0 <= i < 7 ==> (#[trigger] g.table@[i]).downturned@.len() <= 52
            && g.table@[i].upturned@.len() <= 52 && all_cards_wf(g.table@[i].downturned@)
            && all_cards_wf(g.table@[i].upturned@)
    &&& forall|s: int|
        0 <= s < 4 ==> (#[trigger] g.aces@[s]).ace_stack@.len() <= 52 && all_cards_wf(
            g.aces@[s].ace_stack@,
        )
    &&& g.draw@.len() <= 52
    &&& all_cards_wf(g.draw@)
}

// ---------------------------------------------------------------------------
// Category 1: flip moves
// ---------------------------------------------------------------------------
/// Stack `i` can flip: its face-up run is empty and face-down cards remain.
pub open spec fn flip_eligible(g: Game, i: int) -> bool {
    g.table@[i].upturned@.len() == 0 && g.table@[i].downturned@.len() != 0
}

/// The flip move for stack `i`: its top face-down card turns face up.
pub open spec fn spec_flip_move(g: Game, i: int) -> GameMove {
    GameMove {
        from: CardPosition::TableDownturned {
            stack_index: i as i8,
            downturned_index: (g.table@[i].downturned@.len() - 1) as i8,
        },
        to: CardPosition::TableUpturned { stack_index: i as i8, upturned_index: 0 },
    }
}

pub open spec fn flip_moves_upto(g: Game, n: int) -> Seq<GameMove>
    decreases n,
{
    if n <= 0 {
        Seq::empty()
    } else {
        flip_moves_upto(g, n - 1) + if flip_eligible(g, n - 1) {
            seq![spec_flip_move(g, n - 1)]
        } else {
            Seq::empty()
        }
    }
}

/// All flip moves, one per eligible stack, in stack order.
pub open spec fn spec_flip_moves(g: Game) -> Seq<GameMove> {
    flip_moves_upto(g, 7)
}

// ---------------------------------------------------------------------------
// Category 2: bare Aces from the tableau
// ---------------------------------------------------------------------------
/// Stack `i`'s exposed top card is an Ace.
pub open spec fn table_ace_eligible(g: Game, i: int) -> bool {
    g.table@[i].upturned@.len() > 0 && g.table@[i].upturned@.last().number == 1
}

/// The promotion of stack `i`'s exposed Ace to its suit's foundation.
pub open spec fn spec_table_ace_move(g: Game, i: int) -> GameMove {
    GameMove {
        from: CardPosition::TableUpturned {
            stack_index: i as i8,
            upturned_index: (g.table@[i].upturned@.len() - 1) as i8,
        },
        to: CardPosition::Ace { suit_index: g.table@[i].upturned@.last().suit_index },
    }
}

pub open spec fn table_ace_moves_upto(g: Game, n: int) -> Seq<GameMove>
    decreases n,
{
    if n <= 0 {
        Seq::empty()
    } else {
        table_ace_moves_upto(g, n - 1) + if table_ace_eligible(g, n - 1) {
            seq![spec_table_ace_move(g, n - 1)]
        } else {
            Seq::empty()
        }
    }
}

/// All bare-Ace promotions from the tableau, in stack order.
pub open spec fn spec_table_ace_moves(g: Game) -> Seq<GameMove> {
    table_ace_moves_upto(g, 7)
}

// ---------------------------------------------------------------------------
// Category 3: bare Aces from the draw pile
// ---------------------------------------------------------------------------
/// Draw card `k` is an Ace.
pub open spec fn draw_ace_eligible(g: Game, k: int) -> bool {
    g.draw@[k].number == 1
}

/// The promotion of draw card `k` to its suit's foundation.
pub open spec fn spec_draw_ace_move(g: Game, k: int) -> GameMove {
    GameMove {
        from: CardPosition::DrawDeck { deck_index: k as i8 },
        to: CardPosition::Ace { suit_index: g.draw@[k].suit_index },
    }
}

pub open spec fn draw_ace_moves_upto(g: Game, n: int) -> Seq<GameMove>
    decreases n,
{
    if n <= 0 {
        Seq::empty()
    } else {
        draw_ace_moves_upto(g, n - 1) + if draw_ace_eligible(g, n - 1) {
            seq![spec_draw_ace_move(g, n - 1)]
        } else {
            Seq::empty()
        }
    }
}

/// All bare-Ace promotions from the draw pile, in position order.
pub open spec fn spec_draw_ace_moves(g: Game) -> Seq<GameMove> {
    draw_ace_moves_upto(g, g.draw@.len() as int)
}

// ---------------------------------------------------------------------------
// Category 4: queuing Kings to the first vacant stack
// ---------------------------------------------------------------------------
/// Stack `i` is entirely empty.
pub open spec fn stack_vacant(g: Game, i: int) -> bool {
    g.table@[i].upturned@.len() == 0 && g.table@[i].downturned@.len() == 0
}

pub open spec fn first_vacant_from(g: Game, i: int) -> int
    decreases 7 - i,
{
    if i < 0 || i >= 7 {
        7
    } else if stack_vacant(g, i) {
        i
    } else {
        first_vacant_from(g, i + 1)
    }
}

/// The first entirely empty tableau stack, or 7 when none is.
pub open spec fn first_vacant(g: Game) -> int {
    first_vacant_from(g, 0)
}

/// A King queues on stack `i`: it is the bottom of the face-up run and the
/// stack still has face-down cards beneath, so moving it frees real space.
pub open spec fn table_king_queuing(g: Game, i: int) -> bool {
    g.table@[i].downturned@.len() != 0 && g.table@[i].upturned@.len() > 0
        && g.table@[i].upturned@[0].number == 13
}

/// A King queues in the draw pile at position `k`.
pub open spec fn draw_king_queuing(g: Game, k: int) -> bool {
    g.draw@[k].number == 13
}

pub open spec fn table_kings_upto(g: Game, n: int) -> int
    decreases n,
{
    if n <= 0 {
        0
    } else {
        table_kings_upto(g, n - 1) + if table_king_queuing(g, n - 1) {
            1int
        } else {
            0int
        }
    }
}

pub open spec fn draw_kings_upto(g: Game, n: int) -> int
    decreases n,
{
    if n <= 0 {
        0
    } else {
        draw_kings_upto(g, n - 1) + if draw_king_queuing(g, n - 1) {
            1int
        } else {
            0int
        }
    }
}

/// How many Kings are queuing anywhere, whether or not a slot is vacant.
pub open spec fn spec_queuing_kings(g: Game) -> int {
    table_kings_upto(g, 7) + draw_kings_upto(g, g.draw@.len() as int)
}

pub open spec fn spec_king_move_from_table(g: Game, i: int) -> GameMove {
    GameMove {
        from: CardPosition::TableUpturned { stack_index: i as i8, upturned_index: 0 },
        to: CardPosition::TableUpturned {
            stack_index: first_vacant(g) as i8,
            upturned_index: 0,
        },
    }
}

pub open spec fn spec_king_move_from_draw(g: Game, k: int) -> GameMove {
    GameMove {
        from: CardPosition::DrawDeck { deck_index: k as i8 },
        to: CardPosition::TableUpturned {
            stack_index: first_vacant(g) as i8,
            upturned_index: 0,
        },
    }
}

pub open spec fn king_table_moves_upto(g: Game, n: int) -> Seq<GameMove>
    decreases n,
{
    if n <= 0 {
        Seq::empty()
    } else {
        king_table_moves_upto(g, n - 1) + if table_king_queuing(g, n - 1) {
            seq![spec_king_move_from_table(g, n - 1)]
        } else {
            Seq::empty()
        }
    }
}

pub open spec fn king_draw_moves_upto(g: Game, n: int) -> Seq<GameMove>
    decreases n,
{
    if n <= 0 {
        Seq::empty()
    } else {
        king_draw_moves_upto(g, n - 1) + if draw_king_queuing(g, n - 1) {
            seq![spec_king_move_from_draw(g, n - 1)]
        } else {
            Seq::empty()
        }
    }
}

/// When some stack is vacant: one move per queuing King (tableau Kings
/// first, then draw Kings), all targeting the first vacant stack. When no
/// stack is vacant: no moves at all.
pub open spec fn spec_table_king_moves(g: Game) -> Seq<GameMove> {
    if first_vacant(g) < 7 {
        king_table_moves_upto(g, 7) + king_draw_moves_upto(g, g.draw@.len() as int)
    } else {
        Seq::empty()
    }
}

// ---------------------------------------------------------------------------
// Category 5: foundation promotions beyond bare Aces
// ---------------------------------------------------------------------------
/// Stack `i`'s exposed top card continues its suit's non-empty foundation.
pub open spec fn table_promo_eligible(g: Game, i: int) -> bool {
    let u = g.table@[i].upturned@;
    &&& u.len() > 0
    &&& g.aces@[u.last().suit_index as int].ace_stack@.len() > 0
    &&& u.last().number == g.aces@[u.last().suit_index as int].ace_stack@.last().number + 1
}

pub open spec fn spec_table_promo_move(g: Game, i: int) -> GameMove {
    GameMove {
        from: CardPosition::TableUpturned {
            stack_index: i as i8,
            upturned_index: (g.table@[i].upturned@.len() - 1) as i8,
        },
        to: CardPosition::Ace { suit_index: g.table@[i].upturned@.last().suit_index },
    }
}

/// Draw card `k` continues its suit's non-empty foundation.
pub open spec fn draw_promo_eligible(g: Game, k: int) -> bool {
    let c = g.draw@[k];
    &&& g.aces@[c.suit_index as int].ace_stack@.len() > 0
    &&& c.number == g.aces@[c.suit_index as int].ace_stack@.last().number + 1
}

pub open spec fn spec_draw_promo_move(g: Game, k: int) -> GameMove {
    GameMove {
        from: CardPosition::DrawDeck { deck_index: k as i8 },
        to: CardPosition::Ace { suit_index: g.draw@[k].suit_index },
    }
}

pub open spec fn promo_table_upto(g: Game, n: int) -> Seq<GameMove>
    decreases n,
{
    if n <= 0 {
        Seq::empty()
    } else {
        promo_table_upto(g, n - 1) + if table_promo_eligible(g, n - 1) {
            seq![spec_table_promo_move(g, n - 1)]
        } else {
            Seq::empty()
        }
    }
}

pub open spec fn promo_draw_upto(g: Game, n: int) -> Seq<GameMove>
    decreases n,
{
    if n <= 0 {
        Seq::empty()
    } else {
        promo_draw_upto(g, n - 1) + if draw_promo_eligible(g, n - 1) {
            seq![spec_draw_promo_move(g, n - 1)]
        } else {
            Seq::empty()
        }
    }
}

/// All foundation promotions: tableau tops in stack order, then draw cards
/// in position order.
pub open spec fn spec_ace_stack_moves(g: Game) -> Seq<GameMove> {
    promo_table_upto(g, 7) + promo_draw_upto(g, g.draw@.len() as int)
}

// ---------------------------------------------------------------------------
// Categories 6 and 7: run moves onto another stack's exposed top
// ---------------------------------------------------------------------------
/// `mover` may be placed on `target`: opposite colors, `target` one rank up.
pub open spec fn placement_match(mover: Card, target: Card) -> bool {
    !spec_same_color(mover.suit, target.suit) && target.number == mover.number + 1
}

/// The exposed top card of each non-empty stack, paired with the position
/// just past it (where arriving cards would land), in stack order.
pub open spec fn final_cards_upto(g: Game, n: int) -> Seq<(Card, CardPosition)>
    decreases n,
{
    if n <= 0 {
        Seq::empty()
    } else {
        final_cards_upto(g, n - 1) + if g.table@[n - 1].upturned@.len() > 0 {
            seq![
                (
                    g.table@[n - 1].upturned@.last(),
                    CardPosition::TableUpturned {
                        stack_index: (n - 1) as i8,
                        upturned_index: g.table@[n - 1].upturned@.len() as i8,
                    },
                ),
            ]
        } else {
            Seq::empty()
        }
    }
}

pub open spec fn spec_final_cards(g: Game) -> Seq<(Card, CardPosition)> {
    final_cards_upto(g, 7)
}

/// Table-to-table candidates of the single face-up card `g.table[i][k]`
/// against the first `nf` target entries.
pub open spec fn table_moves_targets(
    g: Game,
    i: int,
    k: int,
    fc: Seq<(Card, CardPosition)>,
    nf: int,
) -> Seq<GameMove>
    decreases nf,
{
    if nf <= 0 {
        Seq::empty()
    } else {
        table_moves_targets(g, i, k, fc, nf - 1) + if placement_match(
            g.table@[i].upturned@[k],
            fc[nf - 1].0,
        ) {
            seq![
                GameMove {
                    from: CardPosition::TableUpturned {
                        stack_index: i as i8,
                        upturned_index: k as i8,
                    },
                    to: fc[nf - 1].1,
                },
            ]
        } else {
            Seq::empty()
        }
    }
}

pub open spec fn table_moves_cards(
    g: Game,
    i: int,
    fc: Seq<(Card, CardPosition)>,
    nk: int,
) -> Seq<GameMove>
    decreases nk,
{
    if nk <= 0 {
        Seq::empty()
    } else {
        table_moves_cards(g, i, fc, nk - 1) + table_moves_targets(g, i, nk - 1, fc, fc.len() as int)
    }
}

pub open spec fn table_moves_upto(g: Game, fc: Seq<(Card, CardPosition)>, ni: int) -> Seq<GameMove>
    decreases ni,
{
    if ni <= 0 {
        Seq::empty()
    } else {
        table_moves_upto(g, fc, ni - 1) + table_moves_cards(
            g,
            ni - 1,
            fc,
            g.table@[ni - 1].upturned@.len() as int,
        )
    }
}

/// All table-to-table run moves: every face-up card of every stack against
/// every given target position.
pub open spec fn spec_table_moves(g: Game, fc: Seq<(Card, CardPosition)>) -> Seq<GameMove> {
    table_moves_upto(g, fc, 7)
}

/// Draw-to-table candidates of draw card `k` against the first `nf` target
/// entries.
pub open spec fn deck_moves_targets(
    g: Game,
    k: int,
    fc: Seq<(Card, CardPosition)>,
    nf: int,
) -> Seq<GameMove>
    decreases nf,
{
    if nf <= 0 {
        Seq::empty()
    } else {
        deck_moves_targets(g, k, fc, nf - 1) + if placement_match(g.draw@[k], fc[nf - 1].0) {
            seq![
                GameMove {
                    from: CardPosition::DrawDeck { deck_index: k as i8 },
                    to: fc[nf - 1].1,
                },
            ]
        } else {
            Seq::empty()
        }
    }
}

pub open spec fn deck_moves_upto(g: Game, fc: Seq<(Card, CardPosition)>, nk: int) -> Seq<GameMove>
    decreases nk,
{
    if nk <= 0 {
        Seq::empty()
    } else {
        deck_moves_upto(g, fc, nk - 1) + deck_moves_targets(g, nk - 1, fc, fc.len() as int)
    }
}

/// All draw-to-table moves: every draw card against every target position.
pub open spec fn spec_deck_moves(g: Game, fc: Seq<(Card, CardPosition)>) -> Seq<GameMove> {
    deck_moves_upto(g, fc, g.draw@.len() as int)
}

// ---------------------------------------------------------------------------
// Executable generators
// ---------------------------------------------------------------------------
impl Game {
    /// Flip moves: for every stack whose face-up run is empty but which
    /// still holds face-down cards, turn the top face-down card face up.
    pub fn get_table_flip_moves(&self) -> (moves: Vec<GameMove>)
        requires
            game_bounded(*self),
        ensures
            moves@ == spec_flip_moves(*self),
    {
        let mut moves: Vec<GameMove> = Vec::new();
        let mut i: usize = 0;
        while i < 7
            invariant
                game_bounded(*self),
                0 <= i <= 7,
                moves@ == flip_moves_upto(*self, i as int),
            decreases 7 - i,
        {
            let downturned_len = self.table[i].downturned.len();
            if self.table[i].upturned.len() == 0 && downturned_len != 0 {
                moves.push(
                    GameMove {
                        from: CardPosition::TableDownturned {
                            stack_index: i as i8,
                            downturned_index: (downturned_len - 1) as i8,
                        },
                        to: CardPosition::TableUpturned {
                            stack_index: i as i8,
                            upturned_index: 0,
                        },
                    },
                );
            }
            proof {
                assert(moves@ =~= flip_moves_upto(*self, i as int + 1));
            }
            i = i + 1;
        }
        moves
    }

    /// Bare-Ace moves from the tableau: every stack whose exposed top card
    /// is an Ace may promote it to the matching foundation.
    pub fn get_table_ace_moves(&self) -> (moves: Vec<GameMove>)
        requires
            game_bounded(*self),
        ensures
            moves@ == spec_table_ace_moves(*self),
    {
        let mut moves: Vec<GameMove> = Vec::new();
        let mut i: usize = 0;
        while i < 7
            invariant
                game_bounded(*self),
                0 <= i <= 7,
                moves@ == table_ace_moves_upto(*self, i as int),
            decreases 7 - i,
        {
            let upturned_len = self.table[i].upturned.len();
            if upturned_len > 0 {
                let final_card = self.table[i].upturned[upturned_len - 1];
                if final_card.number == 1 {
                    moves.push(
                        GameMove {
                            from: CardPosition::TableUpturned {
                                stack_index: i as i8,
                                upturned_index: (upturned_len - 1) as i8,
                            },
                            to: CardPosition::Ace { suit_index: final_card.suit_index },
                        },
                    );
                }
            }
            proof {
                assert(moves@ =~= table_ace_moves_upto(*self, i as int + 1));
            }
            i = i + 1;
        }
        moves
    }

    /// Bare-Ace moves from the draw pile: every Ace there may be promoted.
    pub fn get_draw_ace_moves(&self) -> (moves: Vec<GameMove>)
        requires
            game_bounded(*self),
        ensures
            moves@ == spec_draw_ace_moves(*self),
    {
        let mut moves: Vec<GameMove> = Vec::new();
        let mut k: usize = 0;
        while k < self.draw.len()
            invariant
                game_bounded(*self),
                0 <= k <= self.draw@.len(),
                moves@ == draw_ace_moves_upto(*self, k as int),
            decreases self.draw@.len() - k,
        {
            let deck_card = self.draw[k];
            if deck_card.number == 1 {
                moves.push(
                    GameMove {
                        from: CardPosition::DrawDeck { deck_index: k as i8 },
                        to: CardPosition::Ace { suit_index: deck_card.suit_index },
                    },
                );
            }
            proof {
                assert(moves@ =~= draw_ace_moves_upto(*self, k as int + 1));
            }
            k = k + 1;
        }
        moves
    }

    /// King moves plus the queuing-King count. Kings queuing on the tableau
    /// (run-bottom Kings over remaining face-down cards) and in the draw
    /// pile are counted always; moves are emitted only when some stack is
    /// entirely vacant, one per queuing King, all to the first vacant stack.
    pub fn get_table_king_moves(&self) -> (r: (Vec<GameMove>, i8))
        requires
            game_bounded(*self),
        ensures
            r.0@ == spec_table_king_moves(*self),
            r.1 as int == spec_queuing_kings(*self),
    {
        let mut queuing: i8 = 0;
        let mut i: usize = 0;
        while i < 7
            invariant
                game_bounded(*self),
                0 <= i <= 7,
                queuing as int == table_kings_upto(*self, i as int),
                0 <= queuing as int <= i as int,
            decreases 7 - i,
        {
            if self.table[i].downturned.len() != 0 && self.table[i].upturned.len() > 0 {
                let first_card = self.table[i].upturned[0];
                if first_card.number == 13 {
                    queuing = queuing + 1;
                }
            }
            i = i + 1;
        }
        let mut k: usize = 0;
        while k < self.draw.len()
            invariant
                game_bounded(*self),
                0 <= k <= self.draw@.len(),
                queuing as int == table_kings_upto(*self, 7) + draw_kings_upto(*self, k as int),
                0 <= queuing as int <= 7 + k as int,
            decreases self.draw@.len() - k,
        {
            if self.draw[k].number == 13 {
                queuing = queuing + 1;
            }
            k = k + 1;
        }
        let mut vacant_stack_index: usize = 0;
        while vacant_stack_index < 7 && !(self.table[vacant_stack_index].upturned.len() == 0
            && self.table[vacant_stack_index].downturned.len() == 0)
            invariant
                game_bounded(*self),
                0 <= vacant_stack_index <= 7,
                first_vacant(*self) == first_vacant_from(*self, vacant_stack_index as int),
            decreases 7 - vacant_stack_index,
        {
            vacant_stack_index = vacant_stack_index + 1;
        }
        let mut moves: Vec<GameMove> = Vec::new();
        if vacant_stack_index < 7 {
            let mut i: usize = 0;
            while i < 7
                invariant
                    game_bounded(*self),
                    0 <= i <= 7,
                    first_vacant(*self) == vacant_stack_index as int,
                    vacant_stack_index < 7,
                    moves@ == king_table_moves_upto(*self, i as int),
                decreases 7 - i,
            {
                if self.table[i].downturned.len() != 0 && self.table[i].upturned.len() > 0 {
                    let first_card = self.table[i].upturned[0];
                    if first_card.number == 13 {
                        moves.push(
                            GameMove {
                                from: CardPosition::TableUpturned {
                                    stack_index: i as i8,
                                    upturned_index: 0,
                                },
                                to: CardPosition::TableUpturned {
                                    stack_index: vacant_stack_index as i8,
                                    upturned_index: 0,
                                },
                            },
                        );
                    }
                }
                proof {
                    assert(moves@ =~= king_table_moves_upto(*self, i as int + 1));
                }
                i = i + 1;
            }
            let mut k: usize = 0;
            while k < self.draw.len()
                invariant
                    game_bounded(*self),
                    0 <= k <= self.draw@.len(),
                    first_vacant(*self) == vacant_stack_index as int,
                    vacant_stack_index < 7,
                    moves@ == king_table_moves_upto(*self, 7) + king_draw_moves_upto(
                        *self,
                        k as int,
                    ),
                decreases self.draw@.len() - k,
            {
                if self.draw[k].number == 13 {
                    moves.push(
                        GameMove {
                            from: CardPosition::DrawDeck { deck_index: k as i8 },
                            to: CardPosition::TableUpturned {
                                stack_index: vacant_stack_index as i8,
                                upturned_index: 0,
                            },
                        },
                    );
                }
                proof {
                    assert(king_table_moves_upto(*self, 7) + king_draw_moves_upto(
                        *self,
                        k as int + 1,
                    ) =~= if draw_king_queuing(*self, k as int) {
                        (king_table_moves_upto(*self, 7) + king_draw_moves_upto(
                            *self,
                            k as int,
                        )).push(spec_king_move_from_draw(*self, k as int))
                    } else {
                        king_table_moves_upto(*self, 7) + king_draw_moves_upto(*self, k as int)
                    });
                }
                k = k + 1;
            }
        }
        (moves, queuing)
    }

    /// Foundation promotions beyond bare Aces: every exposed tableau top or
    /// draw card whose rank is exactly one above its suit's current
    /// foundation top.
    pub fn get_ace_stack_moves(&self) -> (moves: Vec<GameMove>)
        requires
            game_bounded(*self),
        ensures
            moves@ == spec_ace_stack_moves(*self),
    {
        let mut moves: Vec<GameMove> = Vec::new();
        let mut i: usize = 0;
        while i < 7
            invariant
                game_bounded(*self),
                0 <= i <= 7,
                moves@ == promo_table_upto(*self, i as int),
            decreases 7 - i,
        {
            let upturned_len = self.table[i].upturned.len();
            if upturned_len > 0 {
                let final_card = self.table[i].upturned[upturned_len - 1];
                let s = final_card.suit_index as usize;
                let ace_len = self.aces[s].ace_stack.len();
                if ace_len > 0 {
                    let latest_ace = self.aces[s].ace_stack[ace_len - 1];
                    if final_card.number == latest_ace.number + 1 {
                        moves.push(
                            GameMove {
                                from: CardPosition::TableUpturned {
                                    stack_index: i as i8,
                                    upturned_index: (upturned_len - 1) as i8,
                                },
                                to: CardPosition::Ace { suit_index: final_card.suit_index },
                            },
                        );
                    }
                }
            }
            proof {
                assert(moves@ =~= promo_table_upto(*self, i as int + 1));
            }
            i = i + 1;
        }
        let mut k: usize = 0;
        while k < self.draw.len()
            invariant
                game_bounded(*self),
                0 <= k <= self.draw@.len(),
                moves@ == promo_table_upto(*self, 7) + promo_draw_upto(*self, k as int),
            decreases self.draw@.len() - k,
        {
            let draw_card = self.draw[k];
            let s = draw_card.suit_index as usize;
            let ace_len = self.aces[s].ace_stack.len();
            if ace_len > 0 {
                let latest_ace = self.aces[s].ace_stack[ace_len - 1];
                if draw_card.number == latest_ace.number + 1 {
                    moves.push(
                        GameMove {
                            from: CardPosition::DrawDeck { deck_index: k as i8 },
                            to: CardPosition::Ace { suit_index: draw_card.suit_index },
                        },
                    );
                }
            }
            proof {
                assert(promo_table_upto(*self, 7) + promo_draw_upto(*self, k as int + 1)
                    =~= if draw_promo_eligible(*self, k as int) {
                    (promo_table_upto(*self, 7) + promo_draw_upto(*self, k as int)).push(
                        spec_draw_promo_move(*self, k as int),
                    )
                } else {
                    promo_table_upto(*self, 7) + promo_draw_upto(*self, k as int)
                });
            }
            k = k + 1;
        }
        moves
    }

    /// Table-to-table moves: every face-up card (with the whole run above
    /// it) against every given target position, matched by opposite color
    /// and consecutive rank.
    pub fn get_table_moves(&self, final_cards: &Vec<(Card, CardPosition)>) -> (moves: Vec<
        GameMove,
    >)
        requires
            game_bounded(*self),
        ensures
            moves@ == spec_table_moves(*self, final_cards@),
    {
        let mut moves: Vec<GameMove> = Vec::new();
        let mut i: usize = 0;
        while i < 7
            invariant
                game_bounded(*self),
                0 <= i <= 7,
                moves@ == table_moves_upto(*self, final_cards@, i as int),
            decreases 7 - i,
        {
            let mut k: usize = 0;
            while k < self.table[i].upturned.len()
                invariant
                    game_bounded(*self),
                    i < 7,
                    0 <= k <= self.table@[i as int].upturned@.len(),
                    moves@ == table_moves_upto(*self, final_cards@, i as int) + table_moves_cards(
                        *self,
                        i as int,
                        final_cards@,
                        k as int,
                    ),
                decreases self.table@[i as int].upturned@.len() - k,
            {
                let upturned_card = self.table[i].upturned[k];
                let mut f: usize = 0;
                while f < final_cards.len()
                    invariant
                        game_bounded(*self),
                        i < 7,
                        k < self.table@[i as int].upturned@.len(),
                        upturned_card == self.table@[i as int].upturned@[k as int],
                        0 <= f <= final_cards@.len(),
                        moves@ == table_moves_upto(*self, final_cards@, i as int)
                            + table_moves_cards(*self, i as int, final_cards@, k as int)
                            + table_moves_targets(
                            *self,
                            i as int,
                            k as int,
                            final_cards@,
                            f as int,
                        ),
                    decreases final_cards@.len() - f,
                {
                    let (compare_card, compare_position) = final_cards[f];
                    if !upturned_card.suit.same_color(compare_card.suit) {
                        if compare_card.number == upturned_card.number + 1 {
                            moves.push(
                                GameMove {
                                    from: CardPosition::TableUpturned {
                                        stack_index: i as i8,
                                        upturned_index: k as i8,
                                    },
                                    to: compare_position,
                                },
                            );
                        }
                    }
                    proof {
                        assert(moves@ =~= table_moves_upto(*self, final_cards@, i as int)
                            + table_moves_cards(*self, i as int, final_cards@, k as int)
                            + table_moves_targets(
                            *self,
                            i as int,
                            k as int,
                            final_cards@,
                            f as int + 1,
                        ));
                    }
                    f = f + 1;
                }
                proof {
                    assert(moves@ =~= table_moves_upto(*self, final_cards@, i as int)
                        + table_moves_cards(*self, i as int, final_cards@, k as int + 1));
                }
                k = k + 1;
            }
            proof {
                assert(moves@ =~= table_moves_upto(*self, final_cards@, i as int + 1));
            }
            i = i + 1;
        }
        moves
    }

    /// Draw-to-table moves: every draw card (alone) against every given
    /// target position, matched by opposite color and consecutive rank.
    pub fn get_deck_moves(&self, final_cards: &Vec<(Card, CardPosition)>) -> (moves: Vec<GameMove>)
        requires
            game_bounded(*self),
        ensures
            moves@ == spec_deck_moves(*self, final_cards@),
    {
        let mut moves: Vec<GameMove> = Vec::new();
        let mut k: usize = 0;
        while k < self.draw.len()
            invariant
                game_bounded(*self),
                0 <= k <= self.draw@.len(),
                moves@ == deck_moves_upto(*self, final_cards@, k as int),
            decreases self.draw@.len() - k,
        {
            let draw_card = self.draw[k];
            let mut f: usize = 0;
            while f < final_cards.len()
                invariant
                    game_bounded(*self),
                    k < self.draw@.len(),
                    draw_card == self.draw@[k as int],
                    0 <= f <= final_cards@.len(),
                    moves@ == deck_moves_upto(*self, final_cards@, k as int) + deck_moves_targets(
                        *self,
                        k as int,
                        final_cards@,
                        f as int,
                    ),
                decreases final_cards@.len() - f,
            {
                let (compare_card, compare_position) = final_cards[f];
                if !draw_card.suit.same_color(compare_card.suit) {
                    if compare_card.number == draw_card.number + 1 {
                        moves.push(
                            GameMove {
                                from: CardPosition::DrawDeck { deck_index: k as i8 },
                                to: compare_position,
                            },
                        );
                    }
                }
                proof {
                    assert(moves@ =~= deck_moves_upto(*self, final_cards@, k as int)
                        + deck_moves_targets(*self, k as int, final_cards@, f as int + 1));
                }
                f = f + 1;
            }
            proof {
                assert(moves@ =~= deck_moves_upto(*self, final_cards@, k as int + 1));
            }
            k = k + 1;
        }
        moves
    }

    /// Compute the whole snapshot: gather the target positions (each
    /// non-empty stack's exposed top), then run all seven generators.
    pub fn get_game_state(&self) -> (r: GameState)
        requires
            game_bounded(*self),
        ensures
            r.table_flip_moves@ == spec_flip_moves(*self),
            r.table_ace_moves@ == spec_table_ace_moves(*self),
            r.draw_ace_moves@ == spec_draw_ace_moves(*self),
            r.table_king_moves@ == spec_table_king_moves(*self),
            r.ace_stack_moves@ == spec_ace_stack_moves(*self),
            r.table_moves@ == spec_table_moves(*self, spec_final_cards(*self)),
            r.deck_moves@ == spec_deck_moves(*self, spec_final_cards(*self)),
            r.queuing_kings as int == spec_queuing_kings(*self),
    {
        let mut final_table_stack_cards: Vec<(Card, CardPosition)> = Vec::with_capacity(4);
        let mut i: usize = 0;
        while i < 7
            invariant
                game_bounded(*self),
                0 <= i <= 7,
                final_table_stack_cards@ == final_cards_upto(*self, i as int),
            decreases 7 - i,
        {
            let upturned_len = self.table[i].upturned.len();
            if upturned_len > 0 {
                let final_card = self.table[i].upturned[upturned_len - 1];
                final_table_stack_cards.push(
                    (
                        final_card,
                        CardPosition::TableUpturned {
                            stack_index: i as i8,
                            upturned_index: upturned_len as i8,
                        },
                    ),
                );
            }
            proof {
                assert(final_table_stack_cards@ =~= final_cards_upto(*self, i as int + 1));
            }
            i = i + 1;
        }
        let (table_king_moves, queuing_kings) = self.get_table_king_moves();
        GameState {
            table_flip_moves: self.get_table_flip_moves(),
            table_ace_moves: self.get_table_ace_moves(),
            draw_ace_moves: self.get_draw_ace_moves(),
            table_king_moves,
            ace_stack_moves: self.get_ace_stack_moves(),
            table_moves: self.get_table_moves(&final_table_stack_cards),
            deck_moves: self.get_deck_moves(&final_table_stack_cards),
            queuing_kings,
        }
    }
}

// ---------------------------------------------------------------------------
// What membership in each generated list guarantees
// ---------------------------------------------------------------------------
/// `m` is the flip move of some eligible stack.
pub open spec fn is_flip_member(g: Game, m: GameMove) -> bool {
    exists|i: int| 0 <= i < 7 && flip_eligible(g, i) && m == spec_flip_move(g, i)
}

/// `m` is the bare-Ace promotion of some stack's exposed Ace.
pub open spec fn is_table_ace_member(g: Game, m: GameMove) -> bool {
    exists|i: int| 0 <= i < 7 && table_ace_eligible(g, i) && m == spec_table_ace_move(g, i)
}

/// `m` is the bare-Ace promotion of some Ace in the draw pile.
pub open spec fn is_draw_ace_member(g: Game, m: GameMove) -> bool {
    exists|k: int| 0 <= k < g.draw@.len() && draw_ace_eligible(g, k) && m == spec_draw_ace_move(
        g,
        k,
    )
}

/// `m` moves some queuing King (tableau or draw) to the first vacant stack,
/// which exists.
pub open spec fn is_king_member(g: Game, m: GameMove) -> bool {
    first_vacant(g) < 7 && ((exists|i: int|
        0 <= i < 7 && table_king_queuing(g, i) && m == spec_king_move_from_table(g, i)) || (
    exists|k: int|
        0 <= k < g.draw@.len() && draw_king_queuing(g, k) && m == spec_king_move_from_draw(g, k)))
}

/// `m` promotes some exposed tableau top or draw card that continues its
/// suit's non-empty foundation.
pub open spec fn is_promo_member(g: Game, m: GameMove) -> bool {
    ||| (exists|i: int|
        0 <= i < 7 && table_promo_eligible(g, i) && m == spec_table_promo_move(g, i))
    ||| (exists|k: int|
        0 <= k < g.draw@.len() && draw_promo_eligible(g, k) && m == spec_draw_promo_move(g, k))
}

/// `e` pairs some non-empty stack's exposed top with the position past it.
pub open spec fn is_final_card_entry(g: Game, e: (Card, CardPosition)) -> bool {
    exists|j: int|
        0 <= j < 7 && g.table@[j].upturned@.len() > 0 && e == (
            g.table@[j].upturned@.last(),
            CardPosition::TableUpturned {
                stack_index: j as i8,
                upturned_index: g.table@[j].upturned@.len() as i8,
            },
        )
}

/// `m` moves the run from some face-up position onto some target entry it
/// matches by opposite color and consecutive rank.
pub open spec fn is_table_move_member(
    g: Game,
    fc: Seq<(Card, CardPosition)>,
    m: GameMove,
) -> bool {
    exists|i: int, k: int, f: int|
        {
            &&& 0 <= i < 7
            &&& 0 <= k < g.table@[i].upturned@.len()
            &&& 0 <= f < fc.len()
            &&& placement_match(g.table@[i].upturned@[k], fc[f].0)
            &&& m == (GameMove {
                from: CardPosition::TableUpturned { stack_index: i as i8, upturned_index: k as i8 },
                to: fc[f].1,
            })
        }
}

/// `m` moves some draw card onto some target entry it matches.
pub open spec fn is_deck_move_member(g: Game, fc: Seq<(Card, CardPosition)>, m: GameMove) -> bool {
    exists|k: int, f: int|
        {
            &&& 0 <= k < g.draw@.len()
            &&& 0 <= f < fc.len()
            &&& placement_match(g.draw@[k], fc[f].0)
            &&& m == (GameMove {
                from: CardPosition::DrawDeck { deck_index: k as i8 },
                to: fc[f].1,
            })
        }
}

pub proof fn lemma_flip_members(g: Game, n: int)
    requires
        0 <= n <= 7,
    ensures
        forall|x: int|
            0 <= x < flip_moves_upto(g, n).len() ==> is_flip_member(
                g,
                #[trigger] flip_moves_upto(g, n)[x],
            ),
    decreases n,
{
    if n > 0 {
        lemma_flip_members(g, n - 1);
        let prev = flip_moves_upto(g, n - 1);
        assert forall|x: int| 0 <= x < flip_moves_upto(g, n).len() implies is_flip_member(
            g,
            #[trigger] flip_moves_upto(g, n)[x],
        ) by {
            if x < prev.len() {
                assert(flip_moves_upto(g, n)[x] == prev[x]);
            } else {
                assert(flip_moves_upto(g, n)[x] == spec_flip_move(g, n - 1));
                assert(flip_eligible(g, n - 1));
            }
        }
    }
}

pub proof fn lemma_table_ace_members(g: Game, n: int)
    requires
        0 <= n <= 7,
    ensures
        forall|x: int|
            0 <= x < table_ace_moves_upto(g, n).len() ==> is_table_ace_member(
                g,
                #[trigger] table_ace_moves_upto(g, n)[x],
            ),
    decreases n,
{
    if n > 0 {
        lemma_table_ace_members(g, n - 1);
        let prev = table_ace_moves_upto(g, n - 1);
        assert forall|x: int| 0 <= x < table_ace_moves_upto(g, n).len() implies is_table_ace_member(
            g,
            #[trigger] table_ace_moves_upto(g, n)[x],
        ) by {
            if x < prev.len() {
                assert(table_ace_moves_upto(g, n)[x] == prev[x]);
            } else {
                assert(table_ace_moves_upto(g, n)[x] == spec_table_ace_move(g, n - 1));
                assert(table_ace_eligible(g, n - 1));
            }
        }
    }
}

pub proof fn lemma_draw_ace_members(g: Game, n: int)
    requires
        0 <= n <= g.draw@.len(),
    ensures
        forall|x: int|
            0 <= x < draw_ace_moves_upto(g, n).len() ==> is_draw_ace_member(
                g,
                #[trigger] draw_ace_moves_upto(g, n)[x],
            ),
    decreases n,
{
    if n > 0 {
        lemma_draw_ace_members(g, n - 1);
        let prev = draw_ace_moves_upto(g, n - 1);
        assert forall|x: int| 0 <= x < draw_ace_moves_upto(g, n).len() implies is_draw_ace_member(
            g,
            #[trigger] draw_ace_moves_upto(g, n)[x],
        ) by {
            if x < prev.len() {
                assert(draw_ace_moves_upto(g, n)[x] == prev[x]);
            } else {
                assert(draw_ace_moves_upto(g, n)[x] == spec_draw_ace_move(g, n - 1));
                assert(draw_ace_eligible(g, n - 1));
            }
        }
    }
}

/// Where the first-vacant scan lands: at a vacant stack if any, else at 7,
/// with everything before it occupied.
pub proof fn lemma_first_vacant_from(g: Game, i: int)
    requires
        0 <= i <= 7,
    ensures
        i <= first_vacant_from(g, i) <= 7,
        first_vacant_from(g, i) < 7 ==> stack_vacant(g, first_vacant_from(g, i)),
        forall|x: int| i <= x < first_vacant_from(g, i) ==> !stack_vacant(g, x),
    decreases 7 - i,
{
    if i < 7 && !stack_vacant(g, i) {
        lemma_first_vacant_from(g, i + 1);
    }
}

proof fn lemma_king_table_members(g: Game, n: int)
    requires
        0 <= n <= 7,
        first_vacant(g) < 7,
    ensures
        forall|x: int|
            0 <= x < king_table_moves_upto(g, n).len() ==> is_king_member(
                g,
                #[trigger] king_table_moves_upto(g, n)[x],
            ),
    decreases n,
{
    if n > 0 {
        lemma_king_table_members(g, n - 1);
        let prev = king_table_moves_upto(g, n - 1);
        assert forall|x: int| 0 <= x < king_table_moves_upto(g, n).len() implies is_king_member(
            g,
            #[trigger] king_table_moves_upto(g, n)[x],
        ) by {
            if x < prev.len() {
                assert(king_table_moves_upto(g, n)[x] == prev[x]);
            } else {
                assert(king_table_moves_upto(g, n)[x] == spec_king_move_from_table(g, n - 1));
                assert(table_king_queuing(g, n - 1));
            }
        }
    }
}

proof fn lemma_king_draw_members(g: Game, n: int)
    requires
        0 <= n <= g.draw@.len(),
        first_vacant(g) < 7,
    ensures
        forall|x: int|
            0 <= x < king_draw_moves_upto(g, n).len() ==> is_king_member(
                g,
                #[trigger] king_draw_moves_upto(g, n)[x],
            ),
    decreases n,
{
    if n > 0 {
        lemma_king_draw_members(g, n - 1);
        let prev = king_draw_moves_upto(g, n - 1);
        assert forall|x: int| 0 <= x < king_draw_moves_upto(g, n).len() implies is_king_member(
            g,
            #[trigger] king_draw_moves_upto(g, n)[x],
        ) by {
            if x < prev.len() {
                assert(king_draw_moves_upto(g, n)[x] == prev[x]);
            } else {
                assert(king_draw_moves_upto(g, n)[x] == spec_king_move_from_draw(g, n - 1));
                assert(draw_king_queuing(g, n - 1));
            }
        }
    }
}

pub proof fn lemma_king_members(g: Game)
    ensures
        forall|x: int|
            0 <= x < spec_table_king_moves(g).len() ==> is_king_member(
                g,
                #[trigger] spec_table_king_moves(g)[x],
            ),
{
    if first_vacant(g) < 7 {
        lemma_king_table_members(g, 7);
        lemma_king_draw_members(g, g.draw@.len() as int);
        let a = king_table_moves_upto(g, 7);
        let b = king_draw_moves_upto(g, g.draw@.len() as int);
        assert forall|x: int| 0 <= x < spec_table_king_moves(g).len() implies is_king_member(
            g,
            #[trigger] spec_table_king_moves(g)[x],
        ) by {
            if x < a.len() {
                assert(spec_table_king_moves(g)[x] == a[x]);
            } else {
                assert(spec_table_king_moves(g)[x] == b[x - a.len()]);
            }
        }
    }
}

/// While no tableau stack is entirely empty, the King category emits no
/// moves at all, however many Kings are queuing.
pub proof fn lemma_no_vacant_no_king_moves(g: Game)
    requires
        forall|i: int| 0 <= i < 7 ==> !stack_vacant(g, i),
    ensures
        spec_table_king_moves(g) == Seq::<GameMove>::empty(),
{
    lemma_first_vacant_from(g, 0);
    if first_vacant(g) < 7 {
        assert(stack_vacant(g, first_vacant(g)));
    }
}

proof fn lemma_promo_table_members(g: Game, n: int)
    requires
        0 <= n <= 7,
    ensures
        forall|x: int|
            0 <= x < promo_table_upto(g, n).len() ==> is_promo_member(
                g,
                #[trigger] promo_table_upto(g, n)[x],
            ),
    decreases n,
{
    if n > 0 {
        lemma_promo_table_members(g, n - 1);
        let prev = promo_table_upto(g, n - 1);
        assert forall|x: int| 0 <= x < promo_table_upto(g, n).len() implies is_promo_member(
            g,
            #[trigger] promo_table_upto(g, n)[x],
        ) by {
            if x < prev.len() {
                assert(promo_table_upto(g, n)[x] == prev[x]);
            } else {
                assert(promo_table_upto(g, n)[x] == spec_table_promo_move(g, n - 1));
                assert(table_promo_eligible(g, n - 1));
            }
        }
    }
}

proof fn lemma_promo_draw_members(g: Game, n: int)
    requires
        0 <= n <= g.draw@.len(),
    ensures
        forall|x: int|
            0 <= x < promo_draw_upto(g, n).len() ==> is_promo_member(
                g,
                #[trigger] promo_draw_upto(g, n)[x],
            ),
    decreases n,
{
    if n > 0 {
        lemma_promo_draw_members(g, n - 1);
        let prev = promo_draw_upto(g, n - 1);
        assert forall|x: int| 0 <= x < promo_draw_upto(g, n).len() implies is_promo_member(
            g,
            #[trigger] promo_draw_upto(g, n)[x],
        ) by {
            if x < prev.len() {
                assert(promo_draw_upto(g, n)[x] == prev[x]);
            } else {
                assert(promo_draw_upto(g, n)[x] == spec_draw_promo_move(g, n - 1));
                assert(draw_promo_eligible(g, n - 1));
            }
        }
    }
}

pub proof fn lemma_promo_members(g: Game)
    ensures
        forall|x: int|
            0 <= x < spec_ace_stack_moves(g).len() ==> is_promo_member(
                g,
                #[trigger] spec_ace_stack_moves(g)[x],
            ),
{
    lemma_promo_table_members(g, 7);
    lemma_promo_draw_members(g, g.draw@.len() as int);
    let a = promo_table_upto(g, 7);
    let b = promo_draw_upto(g, g.draw@.len() as int);
    assert forall|x: int| 0 <= x < spec_ace_stack_moves(g).len() implies is_promo_member(
        g,
        #[trigger] spec_ace_stack_moves(g)[x],
    ) by {
        if x < a.len() {
            assert(spec_ace_stack_moves(g)[x] == a[x]);
        } else {
            assert(spec_ace_stack_moves(g)[x] == b[x - a.len()]);
        }
    }
}

pub proof fn lemma_final_cards_members(g: Game, n: int)
    requires
        0 <= n <= 7,
    ensures
        forall|x: int|
            0 <= x < final_cards_upto(g, n).len() ==> is_final_card_entry(
                g,
                #[trigger] final_cards_upto(g, n)[x],
            ),
    decreases n,
{
    if n > 0 {
        lemma_final_cards_members(g, n - 1);
        let prev = final_cards_upto(g, n - 1);
        assert forall|x: int| 0 <= x < final_cards_upto(g, n).len() implies is_final_card_entry(
            g,
            #[trigger] final_cards_upto(g, n)[x],
        ) by {
            if x < prev.len() {
                assert(final_cards_upto(g, n)[x] == prev[x]);
            } else {
                assert(g.table@[n - 1].upturned@.len() > 0);
            }
        }
    }
}

proof fn lemma_table_moves_targets_members(
    g: Game,
    fc: Seq<(Card, CardPosition)>,
    i: int,
    k: int,
    nf: int,
)
    requires
        0 <= i < 7,
        0 <= k < g.table@[i].upturned@.len(),
        0 <= nf <= fc.len(),
    ensures
        forall|x: int|
            0 <= x < table_moves_targets(g, i, k, fc, nf).len() ==> is_table_move_member(
                g,
                fc,
                #[trigger] table_moves_targets(g, i, k, fc, nf)[x],
            ),
    decreases nf,
{
    if nf > 0 {
        lemma_table_moves_targets_members(g, fc, i, k, nf - 1);
        let prev = table_moves_targets(g, i, k, fc, nf - 1);
        assert forall|x: int|
            0 <= x < table_moves_targets(g, i, k, fc, nf).len() implies is_table_move_member(
            g,
            fc,
            #[trigger] table_moves_targets(g, i, k, fc, nf)[x],
        ) by {
            if x < prev.len() {
                assert(table_moves_targets(g, i, k, fc, nf)[x] == prev[x]);
            } else {
                assert(placement_match(g.table@[i].upturned@[k], fc[nf - 1].0));
            }
        }
    }
}

proof fn lemma_table_moves_cards_members(g: Game, fc: Seq<(Card, CardPosition)>, i: int, nk: int)
    requires
        0 <= i < 7,
        0 <= nk <= g.table@[i].upturned@.len(),
    ensures
        forall|x: int|
            0 <= x < table_moves_cards(g, i, fc, nk).len() ==> is_table_move_member(
                g,
                fc,
                #[trigger] table_moves_cards(g, i, fc, nk)[x],
            ),
    decreases nk,
{
    if nk > 0 {
        lemma_table_moves_cards_members(g, fc, i, nk - 1);
        lemma_table_moves_targets_members(g, fc, i, nk - 1, fc.len() as int);
        let prev = table_moves_cards(g, i, fc, nk - 1);
        let tail = table_moves_targets(g, i, nk - 1, fc, fc.len() as int);
        assert forall|x: int|
            0 <= x < table_moves_cards(g, i, fc, nk).len() implies is_table_move_member(
            g,
            fc,
            #[trigger] table_moves_cards(g, i, fc, nk)[x],
        ) by {
            if x < prev.len() {
                assert(table_moves_cards(g, i, fc, nk)[x] == prev[x]);
            } else {
                assert(table_moves_cards(g, i, fc, nk)[x] == tail[x - prev.len()]);
            }
        }
    }
}

pub proof fn lemma_table_moves_members(g: Game, fc: Seq<(Card, CardPosition)>, ni: int)
    requires
        0 <= ni <= 7,
    ensures
        forall|x: int|
            0 <= x < table_moves_upto(g, fc, ni).len() ==> is_table_move_member(
                g,
                fc,
                #[trigger] table_moves_upto(g, fc, ni)[x],
            ),
    decreases ni,
{
    if ni > 0 {
        lemma_table_moves_members(g, fc, ni - 1);
        lemma_table_moves_cards_members(g, fc, ni - 1, g.table@[ni - 1].upturned@.len() as int);
        let prev = table_moves_upto(g, fc, ni - 1);
        let tail = table_moves_cards(g, ni - 1, fc, g.table@[ni - 1].upturned@.len() as int);
        assert forall|x: int|
            0 <= x < table_moves_upto(g, fc, ni).len() implies is_table_move_member(
            g,
            fc,
            #[trigger] table_moves_upto(g, fc, ni)[x],
        ) by {
            if x < prev.len() {
                assert(table_moves_upto(g, fc, ni)[x] == prev[x]);
            } else {
                assert(table_moves_upto(g, fc, ni)[x] == tail[x - prev.len()]);
            }
        }
    }
}

proof fn lemma_deck_moves_targets_members(g: Game, fc: Seq<(Card, CardPosition)>, k: int, nf: int)
    requires
        0 <= k < g.draw@.len(),
        0 <= nf <= fc.len(),
    ensures
        forall|x: int|
            0 <= x < deck_moves_targets(g, k, fc, nf).len() ==> is_deck_move_member(
                g,
                fc,
                #[trigger] deck_moves_targets(g, k, fc, nf)[x],
            ),
    decreases nf,
{
    if nf > 0 {
        lemma_deck_moves_targets_members(g, fc, k, nf - 1);
        let prev = deck_moves_targets(g, k, fc, nf - 1);
        assert forall|x: int|
            0 <= x < deck_moves_targets(g, k, fc, nf).len() implies is_deck_move_member(
            g,
            fc,
            #[trigger] deck_moves_targets(g, k, fc, nf)[x],
        ) by {
            if x < prev.len() {
                assert(deck_moves_targets(g, k, fc, nf)[x] == prev[x]);
            } else {
                assert(placement_match(g.draw@[k], fc[nf - 1].0));
            }
        }
    }
}

pub proof fn lemma_deck_moves_members(g: Game, fc: Seq<(Card, CardPosition)>, nk: int)
    requires
        0 <= nk <= g.draw@.len(),
    ensures
        forall|x: int|
            0 <= x < deck_moves_upto(g, fc, nk).len() ==> is_deck_move_member(
                g,
                fc,
                #[trigger] deck_moves_upto(g, fc, nk)[x],
            ),
    decreases nk,
{
    if nk > 0 {
        lemma_deck_moves_members(g, fc, nk - 1);
        lemma_deck_moves_targets_members(g, fc, nk - 1, fc.len() as int);
        let prev = deck_moves_upto(g, fc, nk - 1);
        let tail = deck_moves_targets(g, nk - 1, fc, fc.len() as int);
        assert forall|x: int|
            0 <= x < deck_moves_upto(g, fc, nk).len() implies is_deck_move_member(
            g,
            fc,
            #[trigger] deck_moves_upto(g, fc, nk)[x],
        ) by {
            if x < prev.len() {
                assert(deck_moves_upto(g, fc, nk)[x] == prev[x]);
            } else {
                assert(deck_moves_upto(g, fc, nk)[x] == tail[x - prev.len()]);
            }
        }
    }
}

} // verus!
