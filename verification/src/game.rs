//! The game state: 7 tableau stacks, 4 foundation stacks and a draw pile,
//! owning the 52-card deck between them, plus the dealer that lays a deck
//! out into the standard triangular tableau.

use vstd::prelude::*;
use vstd::seq_lib::group_to_multiset_ensures;
use vstd::seq_lib::lemma_multiset_commutative;
use vstd::multiset::Multiset;
use crate::card::Card;
use crate::card::card_wf;
use crate::card::spec_card;
use crate::card::spec_same_color;

verus! {

/// One tableau stack: face-down cards below, a face-up run on top.
#[derive(Clone, Debug)]
pub struct TableStack {
    pub downturned: Vec<Card>,
    pub upturned: Vec<Card>,
}

/// One foundation stack, holding a single suit in ascending rank from Ace.
#[derive(Clone, Debug)]
pub struct AceStack {
    pub ace_stack: Vec<Card>,
}

impl AceStack {
    pub fn is_full(&self) -> (r: bool)
        ensures
            r == (self.ace_stack@.len() >= 13),
    {
        self.ace_stack.len() >= 13
    }
}

/// The whole game: all 52 cards are partitioned across these containers.
#[derive(Clone, Debug)]
pub struct Game {
    pub table: Vec<TableStack>,
    pub aces: Vec<AceStack>,
    pub draw: Vec<Card>,
}

/// Every card of the sequence is well formed.
pub open spec fn all_cards_wf(s: Seq<Card>) -> bool {
    forall|k: int| 0 <= k < s.len() ==> card_wf(#[trigger] s[k])
}

/// A face-up run is proper: alternating colors, each card's rank exactly one
/// below the card beneath it.
pub open spec fn run_proper(u: Seq<Card>) -> bool {
    forall|t: int|
        0 <= t && t + 1 < u.len() ==> (#[trigger] u[t + 1]).number == u[t].number - 1
            && !spec_same_color(u[t].suit, u[t + 1].suit)
}

/// A well-formed tableau stack: well-formed cards and a proper face-up run.
pub open spec fn stack_wf(st: TableStack) -> bool {
    &&& all_cards_wf(st.downturned@)
    &&& all_cards_wf(st.upturned@)
    &&& run_proper(st.upturned@)
}

/// A foundation for suit `suit_index` holds exactly the cards
/// Ace, 2, ..., k of that suit, in order.
pub open spec fn foundation_ok(s: Seq<Card>, suit_index: int) -> bool {
    &&& s.len() <= 13
    &&& forall|t: int| 0 <= t < s.len() ==> #[trigger] s[t] == spec_card(suit_index * 13 + t)
}

/// The first `n` cards of the deck, in identifier order.
pub open spec fn deck_prefix(n: nat) -> Seq<Card> {
    Seq::new(n, |id: int| spec_card(id))
}

/// The full 52-card deck, in identifier order.
pub open spec fn deck_seq() -> Seq<Card> {
    deck_prefix(52)
}

/// The full 52-card deck as a multiset: each card exactly once.
pub open spec fn deck_cards() -> Multiset<Card> {
    deck_seq().to_multiset()
}

/// All cards of one tableau stack.
pub open spec fn stack_cards(st: TableStack) -> Multiset<Card> {
    st.downturned@.to_multiset().add(st.upturned@.to_multiset())
}

/// The game has exactly 7 tableau stacks and 4 foundations.
pub open spec fn game_dims(g: Game) -> bool {
    &&& g.table@.len() == 7
    &&& g.aces@.len() == 4
}

/// All cards owned by the game, across every container.
pub open spec fn game_cards(g: Game) -> Multiset<Card> {
    stack_cards(g.table@[0]).add(stack_cards(g.table@[1])).add(stack_cards(g.table@[2])).add(
        stack_cards(g.table@[3]),
    ).add(stack_cards(g.table@[4])).add(stack_cards(g.table@[5])).add(
        stack_cards(g.table@[6]),
    ).add(g.aces@[0].ace_stack@.to_multiset()).add(g.aces@[1].ace_stack@.to_multiset()).add(
        g.aces@[2].ace_stack@.to_multiset(),
    ).add(g.aces@[3].ace_stack@.to_multiset()).add(g.draw@.to_multiset())
}

/// The game-state invariant: right container counts, well-formed stacks,
/// ascending single-suit foundations, and ownership of exactly the 52-card
/// deck with no duplicates or omissions.
pub open spec fn game_wf(g: Game) -> bool {
    &&& game_dims(g)
    &&& forall|i: int| 0 <= i < 7 ==> stack_wf(#[trigger] g.table@[i])
    &&& forall|s: int| 0 <= s < 4 ==> foundation_ok((#[trigger] g.aces@[s]).ace_stack@, s)
    &&& all_cards_wf(g.draw@)
    &&& game_cards(g) == deck_cards()
}

/// Distinct identifiers in `0..52` encode distinct cards.
proof fn lemma_spec_card_injective(a: int, b: int)
    requires
        0 <= a < 52,
        0 <= b < 52,
        spec_card(a) == spec_card(b),
    ensures
        a == b,
{
    assert(a % 13 == b % 13);
    assert(a / 13 == b / 13);
    assert(a == 13 * (a / 13) + a % 13) by (nonlinear_arith);
    assert(b == 13 * (b / 13) + b % 13) by (nonlinear_arith);
}

proof fn lemma_deck_prefix_count(n: nat, c: Card)
    requires
        n <= 52,
    ensures
        deck_prefix(n).to_multiset().count(c) == if exists|id: int|
            0 <= id < n && spec_card(id) == c {
            1nat
        } else {
            0nat
        },
    decreases n,
{
    broadcast use group_to_multiset_ensures;

    if n == 0 {
        assert(deck_prefix(0) =~= Seq::<Card>::empty());
        assert(deck_prefix(0).to_multiset().len() == 0);
        assert(deck_prefix(0).to_multiset() =~= Multiset::<Card>::empty()) by {
            vstd::multiset::lemma_multiset_empty_len(deck_prefix(0).to_multiset());
        }
    } else {
        let m = (n - 1) as nat;
        lemma_deck_prefix_count(m, c);
        assert(deck_prefix(n) =~= deck_prefix(m).push(spec_card(m as int)));
        assert(deck_prefix(n).to_multiset() =~= deck_prefix(m).to_multiset().insert(
            spec_card(m as int),
        ));
        if c == spec_card(m as int) {
            assert forall|id: int| 0 <= id < m implies spec_card(id) != c by {
                if spec_card(id) == c {
                    lemma_spec_card_injective(id, m as int);
                }
            }
            assert(deck_prefix(m).to_multiset().count(c) == 0);
        }
    }
}

/// Each well-formed card occurs exactly once in the full deck; no other
/// value occurs at all.
pub proof fn lemma_deck_count(c: Card)
    ensures
        card_wf(c) ==> deck_cards().count(c) == 1,
        !card_wf(c) ==> deck_cards().count(c) == 0,
{
    lemma_deck_prefix_count(52, c);
    if card_wf(c) {
        let id = c.suit_index * 13 + c.number - 1;
        assert(id / 13 == c.suit_index && id % 13 == c.number - 1) by (nonlinear_arith)
            requires
                0 <= c.suit_index < 4,
                1 <= c.number <= 13,
                id == c.suit_index * 13 + c.number - 1,
        ;
        assert(spec_card(id) == c);
    } else {
        if exists|id: int| 0 <= id < 52 && spec_card(id) == c {
            let id = choose|id: int| 0 <= id < 52 && spec_card(id) == c;
            assert(0 <= id / 13 < 4) by (nonlinear_arith)
                requires
                    0 <= id < 52,
            ;
            assert(0 <= id % 13 < 13);
            assert(card_wf(spec_card(id)));
        }
    }
}

/// A sequence whose cards all fit (count-wise) inside the full deck holds
/// only well-formed cards.
proof fn lemma_seq_cards_wf(s: Seq<Card>)
    requires
        forall|c: Card| s.to_multiset().count(c) <= #[trigger] deck_cards().count(c),
    ensures
        all_cards_wf(s),
{
    broadcast use group_to_multiset_ensures;

    assert forall|k: int| 0 <= k < s.len() implies card_wf(#[trigger] s[k]) by {
        assert(s.contains(s[k]));
        assert(s.to_multiset().count(s[k]) > 0);
        lemma_deck_count(s[k]);
    }
}

/// In a game that owns exactly the deck, every container holds only
/// well-formed cards.
pub proof fn lemma_partition_cards_wf(g: Game)
    requires
        game_dims(g),
        game_cards(g) == deck_cards(),
    ensures
        forall|i: int|
            0 <= i < 7 ==> all_cards_wf((#[trigger] g.table@[i]).downturned@) && all_cards_wf(
                g.table@[i].upturned@,
            ),
        forall|s: int| 0 <= s < 4 ==> all_cards_wf((#[trigger] g.aces@[s]).ace_stack@),
        all_cards_wf(g.draw@),
{
    broadcast use vstd::multiset::group_multiset_axioms;

    assert forall|i: int|
        0 <= i < 7 implies all_cards_wf((#[trigger] g.table@[i]).downturned@) && all_cards_wf(
        g.table@[i].upturned@,
    ) by {
        assert forall|c: Card|
            g.table@[i].downturned@.to_multiset().count(c) <= #[trigger] deck_cards().count(
                c,
            ) by {
            assert(game_cards(g).count(c) >= g.table@[i].downturned@.to_multiset().count(c));
        }
        lemma_seq_cards_wf(g.table@[i].downturned@);
        assert forall|c: Card|
            g.table@[i].upturned@.to_multiset().count(c) <= #[trigger] deck_cards().count(c) by {
            assert(game_cards(g).count(c) >= g.table@[i].upturned@.to_multiset().count(c));
        }
        lemma_seq_cards_wf(g.table@[i].upturned@);
    }
    assert forall|s: int| 0 <= s < 4 implies all_cards_wf((#[trigger] g.aces@[s]).ace_stack@) by {
        assert forall|c: Card|
            g.aces@[s].ace_stack@.to_multiset().count(c) <= #[trigger] deck_cards().count(c) by {
            assert(game_cards(g).count(c) >= g.aces@[s].ace_stack@.to_multiset().count(c));
        }
        lemma_seq_cards_wf(g.aces@[s].ace_stack@);
    }
    assert forall|c: Card| g.draw@.to_multiset().count(c) <= #[trigger] deck_cards().count(c) by {
        assert(game_cards(g).count(c) >= g.draw@.to_multiset().count(c));
    }
    lemma_seq_cards_wf(g.draw@);
}

/// Where stack `i`'s cards begin in the dealt deck: the triangular offset
/// 0, 1, 3, 6, 10, 15, 21, and 28 past the last stack.
pub open spec fn stack_off(i: int) -> int {
    if i <= 0 {
        0
    } else if i == 1 {
        1
    } else if i == 2 {
        3
    } else if i == 3 {
        6
    } else if i == 4 {
        10
    } else if i == 5 {
        15
    } else if i == 6 {
        21
    } else {
        28
    }
}

impl Game {
    /// Deal a 52-card deck into the triangular tableau: stack `i` receives
    /// `i` face-down cards then one face-up card, the remaining 24 cards
    /// form the draw pile, the foundations start empty.
    pub fn new_with_deck(deck: Vec<Card>) -> (r: Game)
        requires
            deck@.len() == 52,
        ensures
            r.table@.len() == 7,
            r.aces@.len() == 4,
            forall|i: int|
                0 <= i < 7 ==> (#[trigger] r.table@[i]).downturned@ == deck@.subrange(
                    stack_off(i),
                    stack_off(i) + i,
                ),
            forall|i: int|
                0 <= i < 7 ==> (#[trigger] r.table@[i]).upturned@ == deck@.subrange(
                    stack_off(i) + i,
                    stack_off(i) + i + 1,
                ),
            forall|s: int| 0 <= s < 4 ==> (#[trigger] r.aces@[s]).ace_stack@.len() == 0,
            r.draw@ == deck@.subrange(28, 52),
            game_cards(r) == deck@.to_multiset(),
            deck@.to_multiset() == deck_cards() ==> game_wf(r),
    {
        let mut table: Vec<TableStack> = Vec::new();
        let mut pos: usize = 0;
        let mut i: usize = 0;
        while i < 7
            invariant
                deck@.len() == 52,
                0 <= i <= 7,
                table@.len() == i as int,
                pos == stack_off(i as int),
                forall|x: int|
                    0 <= x < i ==> (#[trigger] table@[x]).downturned@ == deck@.subrange(
                        stack_off(x),
                        stack_off(x) + x,
                    ),
                forall|x: int|
                    0 <= x < i ==> (#[trigger] table@[x]).upturned@ == deck@.subrange(
                        stack_off(x) + x,
                        stack_off(x) + x + 1,
                    ),
            decreases 7 - i,
        {
            let ghost off = stack_off(i as int);
            let mut down: Vec<Card> = Vec::new();
            let mut k: usize = 0;
            while k < i
                invariant
                    deck@.len() == 52,
                    i < 7,
                    0 <= k <= i,
                    pos == stack_off(i as int) + k as int,
                    down@ == deck@.subrange(
                        stack_off(i as int),
                        stack_off(i as int) + k as int,
                    ),
                decreases i - k,
            {
                down.push(deck[pos]);
                proof {
                    assert(down@ =~= deck@.subrange(
                        stack_off(i as int),
                        stack_off(i as int) + k as int + 1,
                    ));
                }
                pos = pos + 1;
                k = k + 1;
            }
            let mut up: Vec<Card> = Vec::new();
            up.push(deck[pos]);
            proof {
                assert(up@ =~= deck@.subrange(off + i as int, off + i as int + 1));
            }
            pos = pos + 1;
            table.push(TableStack { downturned: down, upturned: up });
            i = i + 1;
            proof {
                assert(stack_off(i as int) == off + i as int);  // triangular step
            }
        }
        let mut draw: Vec<Card> = Vec::new();
        let mut k: usize = 28;
        while k < 52
            invariant
                deck@.len() == 52,
                28 <= k <= 52,
                draw@ == deck@.subrange(28, k as int),
            decreases 52 - k,
        {
            draw.push(deck[k]);
            proof {
                assert(draw@ =~= deck@.subrange(28, k as int + 1));
            }
            k = k + 1;
        }
        let mut aces: Vec<AceStack> = Vec::new();
        aces.push(AceStack { ace_stack: Vec::new() });
        aces.push(AceStack { ace_stack: Vec::new() });
        aces.push(AceStack { ace_stack: Vec::new() });
        aces.push(AceStack { ace_stack: Vec::new() });
        let r = Game { table, aces, draw };
        proof {
            lemma_deal_partition(r, deck@);
            if deck@.to_multiset() == deck_cards() {
                lemma_partition_cards_wf(r);
            }
        }
        r
    }

    /// Build a freshly shuffled game: the 52 cards in random order, dealt
    /// into the triangular tableau.
    pub fn new() -> (r: Game)
        ensures
            game_wf(r),
            forall|i: int| 0 <= i < 7 ==> (#[trigger] r.table@[i]).downturned@.len() == i,
            forall|i: int| 0 <= i < 7 ==> (#[trigger] r.table@[i]).upturned@.len() == 1,
            forall|s: int| 0 <= s < 4 ==> (#[trigger] r.aces@[s]).ace_stack@.len() == 0,
            r.draw@.len() == 24,
    {
        let mut deck: Vec<Card> = Vec::new();
        let mut id: i8 = 0;
        while id < 52
            invariant
                0 <= id <= 52,
                deck@.len() == id as int,
                forall|k: int| 0 <= k < id ==> #[trigger] deck@[k] == spec_card(k),
            decreases 52 - id,
        {
            deck.push(Card::new(id));
            id = id + 1;
        }
        proof {
            assert(deck@ =~= deck_seq());
        }
        shuffle_cards(&mut deck);
        Game::new_with_deck(deck)
    }
}

/// The dealt game owns exactly the cards of the given deck.
proof fn lemma_deal_partition(r: Game, deck: Seq<Card>)
    requires
        deck.len() == 52,
        r.table@.len() == 7,
        r.aces@.len() == 4,
        forall|i: int|
            0 <= i < 7 ==> (#[trigger] r.table@[i]).downturned@ == deck.subrange(
                stack_off(i),
                stack_off(i) + i,
            ),
        forall|i: int|
            0 <= i < 7 ==> (#[trigger] r.table@[i]).upturned@ == deck.subrange(
                stack_off(i) + i,
                stack_off(i) + i + 1,
            ),
        forall|s: int| 0 <= s < 4 ==> (#[trigger] r.aces@[s]).ace_stack@.len() == 0,
        r.draw@ == deck.subrange(28, 52),
    ensures
        game_cards(r) == deck.to_multiset(),
{
    broadcast use group_to_multiset_ensures;
    broadcast use vstd::multiset::group_multiset_axioms;

    assert forall|i: int| 0 <= i < 7 implies stack_cards(#[trigger] r.table@[i])
        == deck.subrange(stack_off(i), stack_off(i + 1)).to_multiset() by {
        let a = deck.subrange(stack_off(i), stack_off(i) + i);
        let b = deck.subrange(stack_off(i) + i, stack_off(i) + i + 1);
        lemma_multiset_commutative(a, b);
        assert(a + b =~= deck.subrange(stack_off(i), stack_off(i + 1)));
    }
    let s0 = deck.subrange(0, 1);
    let p2 = deck.subrange(0, 3);
    let p3 = deck.subrange(0, 6);
    let p4 = deck.subrange(0, 10);
    let p5 = deck.subrange(0, 15);
    let p6 = deck.subrange(0, 21);
    let p7 = deck.subrange(0, 28);
    lemma_multiset_commutative(s0, deck.subrange(1, 3));
    assert(s0 + deck.subrange(1, 3) =~= p2);
    lemma_multiset_commutative(p2, deck.subrange(3, 6));
    assert(p2 + deck.subrange(3, 6) =~= p3);
    lemma_multiset_commutative(p3, deck.subrange(6, 10));
    assert(p3 + deck.subrange(6, 10) =~= p4);
    lemma_multiset_commutative(p4, deck.subrange(10, 15));
    assert(p4 + deck.subrange(10, 15) =~= p5);
    lemma_multiset_commutative(p5, deck.subrange(15, 21));
    assert(p5 + deck.subrange(15, 21) =~= p6);
    lemma_multiset_commutative(p6, deck.subrange(21, 28));
    assert(p6 + deck.subrange(21, 28) =~= p7);
    lemma_multiset_commutative(p7, deck.subrange(28, 52));
    assert(p7 + deck.subrange(28, 52) =~= deck.subrange(0, 52));
    assert(deck.subrange(0, 52) =~= deck);
    assert forall|s: int| 0 <= s < 4 implies (#[trigger] r.aces@[s]).ace_stack@.to_multiset()
        =~= Multiset::<Card>::empty() by {
        vstd::multiset::lemma_multiset_empty_len(r.aces@[s].ace_stack@.to_multiset());
    }
    assert(game_cards(r) =~= deck.to_multiset());
}

/// Relies on rand's `SliceRandom::shuffle` (driven by `rand::thread_rng`):
/// a Fisher-Yates shuffle that permutes the slice in place, so the cards
/// are reordered but none is added or lost.
#[verifier::external_body]
fn shuffle_cards(deck: &mut Vec<Card>)
    ensures
        final(deck)@.to_multiset() == old(deck)@.to_multiset(),
        final(deck)@.len() == old(deck)@.len(),
{
    rand::seq::SliceRandom::shuffle(deck.as_mut_slice(), &mut rand::thread_rng());
}

} // verus!
