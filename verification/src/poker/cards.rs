//! Cards, the deck, and the deterministic shuffle.
use vstd::prelude::*;

verus! {

/// A playing card: rank 2..=14 (14 = ace), suit 0..=3
/// (clubs, diamonds, hearts, spades).
#[derive(Clone, Copy, Debug, PartialEq, Eq, Structural)]
pub struct Card {
    pub rank: u8,
    pub suit: u8,
}

/// A card that can occur in the deck.
pub open spec fn valid_card(c: Card) -> bool {
    2 <= c.rank <= 14 && c.suit <= 3
}

/// All cards of a sequence are valid.
pub open spec fn all_valid(cs: Seq<Card>) -> bool {
    forall|i: int| 0 <= i < cs.len() ==> valid_card(#[trigger] cs[i])
}

/// The card at position `i` of a fresh deck: suits in order, ranks 2..=14
/// within each suit.
pub open spec fn deck_card(i: int) -> Card {
    Card { rank: (i % 13 + 2) as u8, suit: (i / 13) as u8 }
}

/// One step of the xorshift64 generator.
pub open spec fn xorshift_step(x: u64) -> u64 {
    let a = x ^ ((x << 13u64) as u64);
    let b = a ^ (a >> 7u64);
    b ^ ((b << 17u64) as u64)
}

/// The generator's next state, with the zero state replaced by a fixed seed.
pub open spec fn xorshift_next(x: u64) -> u64 {
    if x == 0 {
        xorshift_step(0xdeadbeef_cafebabe)
    } else {
        xorshift_step(x)
    }
}

/// Advances the xorshift64 state and returns the new value.
pub fn xorshift64(state: &mut u64) -> (r: u64)
    ensures
        r == xorshift_next(*old(state)),
        *final(state) == r,
{
    let mut x = *state;
    if x == 0 {
        x = 0xdeadbeef_cafebabe;
    }
    x = x ^ (x << 13u64);
    x = x ^ (x >> 7u64);
    x = x ^ (x << 17u64);
    *state = x;
    x
}

/// A fresh 52-card deck.
pub fn build_deck() -> (deck: Vec<Card>)
    ensures
        deck@.len() == 52,
        forall|i: int| 0 <= i < 52 ==> #[trigger] deck@[i] == deck_card(i),
{
    let mut deck: Vec<Card> = Vec::new();
    let mut suit: u8 = 0;
    while suit < 4
        invariant
            suit <= 4,
            deck@.len() == suit * 13,
            forall|i: int| 0 <= i < deck@.len() ==> #[trigger] deck@[i] == deck_card(i),
        decreases 4 - suit,
    {
        let mut rank: u8 = 2;
        while rank <= 14
            invariant
                suit < 4,
                2 <= rank <= 15,
                deck@.len() == suit * 13 + (rank - 2),
                forall|i: int| 0 <= i < deck@.len() ==> #[trigger] deck@[i] == deck_card(i),
            decreases 15 - rank,
        {
            let ghost idx = deck@.len() as int;
            deck.push(Card { rank, suit });
            assert(idx % 13 == rank - 2 && idx / 13 == suit) by (nonlinear_arith)
                requires
                    idx == suit * 13 + (rank - 2),
                    2 <= rank <= 14,
            ;
            rank = rank + 1;
        }
        suit = suit + 1;
    }
    deck
}

/// The deck holds no card twice.
pub proof fn lemma_deck_distinct(i: int, j: int)
    requires
        0 <= i < 52,
        0 <= j < 52,
        i != j,
    ensures
        deck_card(i) != deck_card(j),
{
    assert(deck_card(i) != deck_card(j)) by (nonlinear_arith)
        requires
            0 <= i < 52,
            0 <= j < 52,
            i != j,
    {
        if i / 13 == j / 13 {
            assert(i % 13 != j % 13);
        }
    }
}

/// Every card of a fresh deck is valid.
pub proof fn lemma_deck_valid(i: int)
    requires
        0 <= i < 52,
    ensures
        valid_card(deck_card(i)),
{
}

/// Swaps positions `i` and `j` of a sequence.
pub open spec fn swap_seq<T>(s: Seq<T>, i: int, j: int) -> Seq<T> {
    s.update(i, s[j]).update(j, s[i])
}

/// Fisher–Yates from the top: positions `i` down to 1 are each swapped with
/// a position drawn from the generator, from state `rng`.
pub open spec fn shuffle_from(s: Seq<Card>, rng: u64, i: int) -> (Seq<Card>, u64)
    decreases i,
{
    if i < 1 {
        (s, rng)
    } else {
        let r = xorshift_next(rng);
        let j = (r as int) % (i + 1);
        shuffle_from(swap_seq(s, i, j), r, i - 1)
    }
}

/// The shuffle of a whole deck and the generator's final state.
pub open spec fn shuffle_spec(s: Seq<Card>, rng: u64) -> (Seq<Card>, u64) {
    shuffle_from(s, rng, s.len() - 1)
}

/// Shuffles `deck` in place with the xorshift64 generator in `rng`.
pub fn shuffle(deck: &mut Vec<Card>, rng: &mut u64)
    ensures
        (final(deck)@, *final(rng)) == shuffle_spec(old(deck)@, *old(rng)),
        final(deck)@.to_multiset() == old(deck)@.to_multiset(),
{
    let n = deck.len();
    if n == 0 {
        return;
    }
    let mut i = n - 1;
    while i >= 1
        invariant
            deck@.len() == n,
            i < n,
            shuffle_spec(old(deck)@, *old(rng)) == shuffle_from(deck@, *rng, i as int),
            deck@.to_multiset() == old(deck)@.to_multiset(),
        decreases i,
    {
        let r = xorshift64(rng);
        let j = (r % ((i + 1) as u64)) as usize;
        let ghost before = deck@;
        let a = deck[i];
        let b = deck[j];
        deck.set(i, b);
        deck.set(j, a);
        proof {
            assert(deck@ =~= swap_seq(before, i as int, j as int));
            lemma_swap_multiset(before, i as int, j as int);
        }
        i = i - 1;
    }
}

/// Swapping two positions keeps the same cards.
pub proof fn lemma_swap_multiset<T>(s: Seq<T>, i: int, j: int)
    requires
        0 <= i < s.len(),
        0 <= j < s.len(),
    ensures
        swap_seq(s, i, j).to_multiset() == s.to_multiset(),
{
    broadcast use vstd::seq_lib::group_to_multiset_ensures;
    let t = s.update(i, s[j]);
    assert(t.to_multiset() == s.to_multiset().remove(s[i]).insert(s[j]));
    assert(t.update(j, s[i]).to_multiset() == t.to_multiset().remove(t[j]).insert(s[i]));
    if i == j {
        assert(t =~= s);
        assert(t.update(j, s[i]) =~= s);
    } else {
        assert(t[j] == s[j]);
        assert(s.to_multiset().remove(s[i]).insert(s[j]).remove(s[j]).insert(s[i]) =~= s.to_multiset());
    }
}

} // verus!
