//! Moves and move execution, plus the per-iteration snapshot of every legal
//! move and the three-way game status derived from it.

use vstd::prelude::*;
use vstd::string::StringExecFns;
use crate::game::Game;
use crate::game::game_dims;

verus! {

/// A location a card (or run of cards) can be addressed at.
#[derive(Clone, Copy, Debug, PartialEq, Eq, Structural)]
pub enum CardPosition {
    TableDownturned { stack_index: i8, downturned_index: i8 },
    TableUpturned { stack_index: i8, upturned_index: i8 },
    Ace { suit_index: i8 },
    DrawDeck { deck_index: i8 },
}

/// A transfer of one or more cards from a source location to a destination.
#[derive(Clone, Copy, Debug, PartialEq, Eq, Structural)]
pub struct GameMove {
    pub from: CardPosition,
    pub to: CardPosition,
}

/// The status of a game: won, a heuristic dead end, or still in play.
/// `LOST` means no further progress was found by this policy, not that the
/// deal is provably unsolvable.
#[derive(Clone, Copy, Debug, PartialEq, Eq, Structural)]
pub enum GameFinalState {
    WON,
    LOST,
    UNFINISHED,
}

/// All currently legal moves, in seven categories, plus the number of kings
/// queuing for an empty tableau slot. A transient snapshot: recomputed fresh
/// every solver iteration, read, then discarded.
#[derive(Clone, Debug)]
pub struct GameState {
    pub table_flip_moves: Vec<GameMove>,
    pub table_ace_moves: Vec<GameMove>,
    pub draw_ace_moves: Vec<GameMove>,
    pub table_king_moves: Vec<GameMove>,
    pub ace_stack_moves: Vec<GameMove>,
    pub table_moves: Vec<GameMove>,
    pub deck_moves: Vec<GameMove>,
    pub queuing_kings: i8,
}

/// All seven move lists are empty.
pub open spec fn all_lists_empty(st: GameState) -> bool {
    &&& st.table_flip_moves@.len() == 0
    &&& st.table_ace_moves@.len() == 0
    &&& st.draw_ace_moves@.len() == 0
    &&& st.table_king_moves@.len() == 0
    &&& st.ace_stack_moves@.len() == 0
    &&& st.table_moves@.len() == 0
    &&& st.deck_moves@.len() == 0
}

/// Every foundation holds its full 13 cards.
pub open spec fn foundations_full(g: Game) -> bool {
    forall|s: int| 0 <= s < 4 ==> (#[trigger] g.aces@[s]).ace_stack@.len() >= 13
}

/// Won when nothing is left to do and all foundations are full; lost when
/// nothing is left to do otherwise; unfinished while any move remains.
pub open spec fn spec_final_state(st: GameState, g: Game) -> GameFinalState {
    if all_lists_empty(st) {
        if foundations_full(g) {
            GameFinalState::WON
        } else {
            GameFinalState::LOST
        }
    } else {
        GameFinalState::UNFINISHED
    }
}

impl GameState {
    /// Classify the game from this snapshot of its legal moves.
    pub fn get_final_state(&self, game: &Game) -> (r: GameFinalState)
        requires
            game.aces@.len() == 4,
        ensures
            r == spec_final_state(*self, *game),
    {
        if self.table_flip_moves.len() == 0 && self.table_ace_moves.len() == 0
            && self.draw_ace_moves.len() == 0 && self.table_king_moves.len() == 0
            && self.ace_stack_moves.len() == 0 && self.table_moves.len() == 0
            && self.deck_moves.len() == 0 {
            if game.aces[0].is_full() && game.aces[1].is_full() && game.aces[2].is_full()
                && game.aces[3].is_full() {
                GameFinalState::WON
            } else {
                GameFinalState::LOST
            }
        } else {
            GameFinalState::UNFINISHED
        }
    }

    /// Every move of the snapshot, all categories concatenated in priority
    /// order; used when dumping the rejected moves of a stuck game.
    pub fn get_all_moves_youch(&self) -> (r: Vec<GameMove>)
        ensures
            r@ == self.table_flip_moves@ + self.table_ace_moves@ + self.draw_ace_moves@
                + self.table_king_moves@ + self.ace_stack_moves@ + self.table_moves@
                + self.deck_moves@,
    {
        let mut moves: Vec<GameMove> = Vec::new();
        append_moves(&mut moves, &self.table_flip_moves);
        append_moves(&mut moves, &self.table_ace_moves);
        append_moves(&mut moves, &self.draw_ace_moves);
        append_moves(&mut moves, &self.table_king_moves);
        append_moves(&mut moves, &self.ace_stack_moves);
        append_moves(&mut moves, &self.table_moves);
        append_moves(&mut moves, &self.deck_moves);
        moves
    }
}

fn append_moves(dst: &mut Vec<GameMove>, src: &Vec<GameMove>)
    ensures
        final(dst)@ == old(dst)@ + src@,
{
    let mut k: usize = 0;
    while k < src.len()
        invariant
            0 <= k <= src@.len(),
            after_borrow(dst)@ == old(dst)@ + src@.subrange(0, k as int),
        decreases src@.len() - k,
    {
        dst.push(src[k]);
        k = k + 1;
        proof {
            assert(old(dst)@ + src@.subrange(0, k as int) =~= (old(dst)@ + src@.subrange(
                0,
                k as int - 1,
            )).push(src@[k as int - 1]));
        }
    }
    proof {
        assert(src@.subrange(0, src@.len() as int) =~= src@);
    }
}

/// The conditions under which `execute` is defined: valid indexes, a legal
/// source/destination pairing, and — for a foundation destination — the
/// strictly ascending rank rule. A move that violates these would be an
/// internal-consistency failure of move generation.
pub open spec fn move_executable(g: Game, m: GameMove) -> bool {
    game_dims(g) && match (m.from, m.to) {
        (
            CardPosition::TableDownturned { stack_index: i, downturned_index: di },
            CardPosition::TableUpturned { stack_index: j, upturned_index: ui },
        ) => {
            &&& 0 <= i < 7
            &&& 0 <= j < 7
            &&& 0 <= di < g.table@[i as int].downturned@.len()
            &&& 0 <= ui <= g.table@[j as int].upturned@.len()
        },
        (
            CardPosition::TableUpturned { stack_index: i, upturned_index: ui },
            CardPosition::TableUpturned { stack_index: j, upturned_index: ti },
        ) => {
            &&& 0 <= i < 7
            &&& 0 <= j < 7
            &&& i != j
            &&& 0 <= ui < g.table@[i as int].upturned@.len()
            &&& 0 <= ti <= g.table@[j as int].upturned@.len()
        },
        (
            CardPosition::TableUpturned { stack_index: i, upturned_index: ui },
            CardPosition::Ace { suit_index: s },
        ) => {
            &&& 0 <= i < 7
            &&& 0 <= s < 4
            &&& g.table@[i as int].upturned@.len() >= 1
            &&& ui == g.table@[i as int].upturned@.len() - 1
            &&& g.aces@[s as int].ace_stack@.len() > 0 ==> g.aces@[s as int].ace_stack@.last().number
                == g.table@[i as int].upturned@.last().number - 1
        },
        (
            CardPosition::DrawDeck { deck_index: k },
            CardPosition::TableUpturned { stack_index: j, upturned_index: ti },
        ) => {
            &&& 0 <= k < g.draw@.len()
            &&& 0 <= j < 7
            &&& 0 <= ti <= g.table@[j as int].upturned@.len()
        },
        (CardPosition::DrawDeck { deck_index: k }, CardPosition::Ace { suit_index: s }) => {
            &&& 0 <= k < g.draw@.len()
            &&& 0 <= s < 4
            &&& g.aces@[s as int].ace_stack@.len() > 0 ==> g.aces@[s as int].ace_stack@.last().number
                == g.draw@[k as int].number - 1
        },
        _ => false,
    }
}

/// How executing a move transforms the game: the addressed cards leave the
/// source container and appear at the destination, everything else is
/// untouched.
pub open spec fn move_applied(pre: Game, post: Game, m: GameMove) -> bool {
    post.table@.len() == pre.table@.len() && post.aces@.len() == pre.aces@.len() && match (
    m.from,
    m.to,
    ) {
        (
            CardPosition::TableDownturned { stack_index: i, downturned_index: di },
            CardPosition::TableUpturned { stack_index: j, upturned_index: ui },
        ) => {
            let c = pre.table@[i as int].downturned@[di as int];
            &&& post.table@[i as int].downturned@ == pre.table@[i as int].downturned@.remove(
                di as int,
            )
            &&& post.table@[j as int].upturned@ == pre.table@[j as int].upturned@.insert(
                ui as int,
                c,
            )
            &&& i != j ==> post.table@[i as int].upturned@ == pre.table@[i as int].upturned@
                && post.table@[j as int].downturned@ == pre.table@[j as int].downturned@
            &&& forall|x: int|
                0 <= x < pre.table@.len() && x != i && x != j ==> #[trigger] post.table@[x]
                    == pre.table@[x]
            &&& post.aces@ == pre.aces@
            &&& post.draw@ == pre.draw@
        },
        (
            CardPosition::TableUpturned { stack_index: i, upturned_index: ui },
            CardPosition::TableUpturned { stack_index: j, upturned_index: ti },
        ) => {
            let u_i = pre.table@[i as int].upturned@;
            let u_j = pre.table@[j as int].upturned@;
            let moved = u_i.subrange(ui as int, u_i.len() as int);
            &&& i != j
            &&& post.table@[i as int].upturned@ == u_i.subrange(0, ui as int)
            &&& post.table@[i as int].downturned@ == pre.table@[i as int].downturned@
            &&& post.table@[j as int].upturned@ == u_j.subrange(0, ti as int) + moved
                + u_j.subrange(ti as int, u_j.len() as int)
            &&& post.table@[j as int].downturned@ == pre.table@[j as int].downturned@
            &&& forall|x: int|
                0 <= x < pre.table@.len() && x != i && x != j ==> #[trigger] post.table@[x]
                    == pre.table@[x]
            &&& post.aces@ == pre.aces@
            &&& post.draw@ == pre.draw@
        },
        (
            CardPosition::TableUpturned { stack_index: i, upturned_index: ui },
            CardPosition::Ace { suit_index: s },
        ) => {
            let u_i = pre.table@[i as int].upturned@;
            let c = u_i.last();
            &&& post.table@[i as int].upturned@ == u_i.subrange(0, u_i.len() - 1)
            &&& post.table@[i as int].downturned@ == pre.table@[i as int].downturned@
            &&& forall|x: int|
                0 <= x < pre.table@.len() && x != i ==> #[trigger] post.table@[x] == pre.table@[x]
            &&& post.aces@[s as int].ace_stack@ == pre.aces@[s as int].ace_stack@.push(c)
            &&& forall|x: int|
                0 <= x < pre.aces@.len() && x != s ==> #[trigger] post.aces@[x] == pre.aces@[x]
            &&& post.draw@ == pre.draw@
        },
        (
            CardPosition::DrawDeck { deck_index: k },
            CardPosition::TableUpturned { stack_index: j, upturned_index: ti },
        ) => {
            let c = pre.draw@[k as int];
            &&& post.draw@ == pre.draw@.remove(k as int)
            &&& post.table@[j as int].upturned@ == pre.table@[j as int].upturned@.insert(
                ti as int,
                c,
            )
            &&& post.table@[j as int].downturned@ == pre.table@[j as int].downturned@
            &&& forall|x: int|
                0 <= x < pre.table@.len() && x != j ==> #[trigger] post.table@[x] == pre.table@[x]
            &&& post.aces@ == pre.aces@
        },
        (CardPosition::DrawDeck { deck_index: k }, CardPosition::Ace { suit_index: s }) => {
            let c = pre.draw@[k as int];
            &&& post.draw@ == pre.draw@.remove(k as int)
            &&& post.aces@[s as int].ace_stack@ == pre.aces@[s as int].ace_stack@.push(c)
            &&& forall|x: int|
                0 <= x < pre.aces@.len() && x != s ==> #[trigger] post.aces@[x] == pre.aces@[x]
            &&& post.table@ == pre.table@
        },
        _ => false,
    }
}

/// The text of one decimal digit.
pub open spec fn dec_text(d: int) -> Seq<char> {
    if d == 0 {
        "0"@
    } else if d == 1 {
        "1"@
    } else if d == 2 {
        "2"@
    } else if d == 3 {
        "3"@
    } else if d == 4 {
        "4"@
    } else if d == 5 {
        "5"@
    } else if d == 6 {
        "6"@
    } else if d == 7 {
        "7"@
    } else if d == 8 {
        "8"@
    } else {
        "9"@
    }
}

/// The decimal text of a small index; a negative index reads as `?`.
pub open spec fn num_text(n: int) -> Seq<char> {
    if n < 0 {
        "?"@
    } else if n < 10 {
        dec_text(n)
    } else if n < 100 {
        dec_text(n / 10) + dec_text(n % 10)
    } else {
        "1"@ + dec_text((n - 100) / 10) + dec_text((n - 100) % 10)
    }
}

/// The text describing one location.
pub open spec fn position_text(p: CardPosition) -> Seq<char> {
    match p {
        CardPosition::TableDownturned { stack_index, downturned_index } => "stack "@ + num_text(
            stack_index as int,
        ) + " downturned "@ + num_text(downturned_index as int),
        CardPosition::TableUpturned { stack_index, upturned_index } => "stack "@ + num_text(
            stack_index as int,
        ) + " upturned "@ + num_text(upturned_index as int),
        CardPosition::Ace { suit_index } => "ace "@ + num_text(suit_index as int),
        CardPosition::DrawDeck { deck_index } => "draw "@ + num_text(deck_index as int),
    }
}

/// The full text describing one move.
pub open spec fn spec_move_text(m: GameMove) -> Seq<char> {
    "Moving from "@ + position_text(m.from) + " to "@ + position_text(m.to)
}

fn digit_str(d: i8) -> (r: &'static str)
    requires
        0 <= d < 10,
    ensures
        r@ == dec_text(d as int),
{
    if d == 0 {
        "0"
    } else if d == 1 {
        "1"
    } else if d == 2 {
        "2"
    } else if d == 3 {
        "3"
    } else if d == 4 {
        "4"
    } else if d == 5 {
        "5"
    } else if d == 6 {
        "6"
    } else if d == 7 {
        "7"
    } else if d == 8 {
        "8"
    } else {
        "9"
    }
}

fn push_index(s: &mut String, n: i8)
    ensures
        final(s)@ == old(s)@ + num_text(n as int),
{
    if n < 0 {
        s.append("?");
    } else if n < 10 {
        s.append(digit_str(n));
    } else if n < 100 {
        s.append(digit_str(n / 10));
        s.append(digit_str(n % 10));
        proof {
            assert(s@ =~= old(s)@ + num_text(n as int));
        }
    } else {
        s.append("1");
        s.append(digit_str((n - 100) / 10));
        s.append(digit_str((n - 100) % 10));
        proof {
            assert(s@ =~= old(s)@ + num_text(n as int));
        }
    }
}

fn push_position(s: &mut String, p: CardPosition)
    ensures
        final(s)@ == old(s)@ + position_text(p),
{
    match p {
        CardPosition::TableDownturned { stack_index, downturned_index } => {
            s.append("stack ");
            push_index(s, stack_index);
            s.append(" downturned ");
            push_index(s, downturned_index);
        },
        CardPosition::TableUpturned { stack_index, upturned_index } => {
            s.append("stack ");
            push_index(s, stack_index);
            s.append(" upturned ");
            push_index(s, upturned_index);
        },
        CardPosition::Ace { suit_index } => {
            s.append("ace ");
            push_index(s, suit_index);
        },
        CardPosition::DrawDeck { deck_index } => {
            s.append("draw ");
            push_index(s, deck_index);
        },
    }
    proof {
        assert(s@ =~= old(s)@ + position_text(p));
    }
}

impl GameMove {
    /// A plain-text description of this move, for the trace and the
    /// stuck-state dump: its source and destination locations.
    pub fn debug_move(&self) -> (r: String)
        ensures
            r@ == spec_move_text(*self),
    {
        let mut s = String::new();
        s.append("Moving from ");
        push_position(&mut s, self.from);
        s.append(" to ");
        push_position(&mut s, self.to);
        proof {
            assert(s@ =~= spec_move_text(*self));
        }
        s
    }
}

impl GameMove {
    /// Execute this move against the game, transferring ownership of the
    /// addressed cards from the source container to the destination.
    pub fn execute(&self, game: &mut Game)
        requires
            move_executable(*old(game), *self),
        ensures
            move_applied(*old(game), *final(game), *self),
    {
        match (self.from, self.to) {
            (
                CardPosition::TableDownturned { stack_index, downturned_index },
                CardPosition::TableUpturned { stack_index: to_stack, upturned_index },
            ) => {
                let c = game.table[stack_index as usize].downturned.remove(
                    downturned_index as usize,
                );
                game.table[to_stack as usize].upturned.insert(upturned_index as usize, c);
            },
            (
                CardPosition::TableUpturned { stack_index, upturned_index },
                CardPosition::TableUpturned { stack_index: to_stack, upturned_index: to_index },
            ) => {
                let mut moved = game.table[stack_index as usize].upturned.split_off(
                    upturned_index as usize,
                );
                let mut tail = game.table[to_stack as usize].upturned.split_off(
                    to_index as usize,
                );
                game.table[to_stack as usize].upturned.append(&mut moved);
                game.table[to_stack as usize].upturned.append(&mut tail);
            },
            (
                CardPosition::TableUpturned { stack_index, upturned_index: _ },
                CardPosition::Ace { suit_index },
            ) => {
                let c = game.table[stack_index as usize].upturned.pop().unwrap();
                game.aces[suit_index as usize].ace_stack.push(c);
            },
            (
                CardPosition::DrawDeck { deck_index },
                CardPosition::TableUpturned { stack_index: to_stack, upturned_index },
            ) => {
                let c = game.draw.remove(deck_index as usize);
                game.table[to_stack as usize].upturned.insert(upturned_index as usize, c);
            },
            (CardPosition::DrawDeck { deck_index }, CardPosition::Ace { suit_index }) => {
                let c = game.draw.remove(deck_index as usize);
                game.aces[suit_index as usize].ace_stack.push(c);
            },
            _ => {
                vstd::pervasive::unreached()
            },
        }
    }
}

} // verus!
