//! Cards, ranks, suits, and the shoe they are drawn from.
use vstd::prelude::*;
use vstd::string::StringExecFns;

verus! {

/// A playing card: its rank, its suit, and whether it lies face down.
#[derive(Debug, Clone, Copy, PartialEq, Eq, Structural)]
pub struct Card {
    pub value: Value,
    pub suit: Suit,
    pub hidden: bool,
}

/// The four suits, and `Nil`, a placeholder that never stands for a real card.
#[derive(Debug, Clone, Copy, PartialEq, Eq, Structural)]
pub enum Suit {
    Clubs,
    Hearts,
    Spades,
    Diamonds,
    Nil,
}

/// The thirteen ranks, and `Nil`, a placeholder that never stands for a real card.
#[derive(Debug, Clone, Copy, PartialEq, Eq, Structural)]
pub enum Value {
    Ace,
    Two,
    Three,
    Four,
    Five,
    Six,
    Seven,
    Eight,
    Nine,
    Ten,
    Jack,
    Queen,
    King,
    Nil,
}

/// The one-character code of a suit.
pub open spec fn suit_char(s: Suit) -> char {
    match s {
        Suit::Hearts => 'h',
        Suit::Diamonds => 'd',
        Suit::Clubs => 'c',
        Suit::Spades => 's',
        Suit::Nil => '_',
    }
}

/// The printed code of a rank.
pub open spec fn value_label(v: Value) -> Seq<char> {
    match v {
        Value::Ace => seq!['A'],
        Value::Two => seq!['2'],
        Value::Three => seq!['3'],
        Value::Four => seq!['4'],
        Value::Five => seq!['5'],
        Value::Six => seq!['6'],
        Value::Seven => seq!['7'],
        Value::Eight => seq!['8'],
        Value::Nine => seq!['9'],
        Value::Ten => seq!['1', '0'],
        Value::Jack => seq!['J'],
        Value::Queen => seq!['Q'],
        Value::King => seq!['K'],
        Value::Nil => seq!['_'],
    }
}

/// What a face-down card shows in place of its rank and suit.
pub open spec fn face_down_label() -> Seq<char> {
    seq!['?', '?']
}

/// The suit's character as a string of one character.
fn suit_str(s: Suit) -> (r: &'static str)
    ensures
        r@ == seq![suit_char(s)],
{
    proof {
        reveal_strlit("h");
        reveal_strlit("d");
        reveal_strlit("c");
        reveal_strlit("s");
        reveal_strlit("_");
    }
    match s {
        Suit::Hearts => "h",
        Suit::Diamonds => "d",
        Suit::Clubs => "c",
        Suit::Spades => "s",
        Suit::Nil => "_",
    }
}

impl Card {
    pub fn new(value: Value, suit: Suit, hidden: bool) -> (r: Self)
        ensures
            r == (Card { value, suit, hidden }),
    {
        Self { value, suit, hidden }
    }

    pub fn set_value(&mut self, value: Value)
        ensures
            *final(self) == (Card { value, ..*old(self) }),
    {
        self.value = value;
    }

    pub fn set_suit(&mut self, suit: Suit)
        ensures
            *final(self) == (Card { suit, ..*old(self) }),
    {
        self.suit = suit;
    }

    pub fn set_hidden(&mut self, hidden: bool)
        ensures
            *final(self) == (Card { hidden, ..*old(self) }),
    {
        self.hidden = hidden;
    }

    /// The rank's code followed by the suit's character, such as `10h` or
    /// `Qs`; a face-down card shows `??` whatever it is.
    pub fn short_label(&self) -> (r: String)
        ensures
            self.hidden ==> r@ == face_down_label(),
            !self.hidden ==> r@ == value_label(self.value).push(suit_char(self.suit)),
    {
        if self.hidden {
            proof {
                reveal_strlit("??");
            }
            return String::from_str("??");
        }
        let mut s = String::from_str(self.value.to_string());
        s.append(suit_str(self.suit));
        proof {
            assert(s@ =~= value_label(self.value).push(suit_char(self.suit)));
        }
        s
    }
}

impl Suit {
    pub fn to_char(&self) -> (r: char)
        ensures
            r == suit_char(*self),
    {
        match self {
            Suit::Hearts => 'h',
            Suit::Diamonds => 'd',
            Suit::Clubs => 'c',
            Suit::Spades => 's',
            Suit::Nil => '_',
        }
    }
}

impl Value {
    pub fn to_string(&self) -> (r: &'static str)
        ensures
            r@ == value_label(*self),
    {
        proof {
            reveal_strlit("A");
            reveal_strlit("2");
            reveal_strlit("3");
            reveal_strlit("4");
            reveal_strlit("5");
            reveal_strlit("6");
            reveal_strlit("7");
            reveal_strlit("8");
            reveal_strlit("9");
            reveal_strlit("10");
            reveal_strlit("J");
            reveal_strlit("Q");
            reveal_strlit("K");
            reveal_strlit("_");
        }
        match self {
            Value::Ace => "A",
            Value::Two => "2",
            Value::Three => "3",
            Value::Four => "4",
            Value::Five => "5",
            Value::Six => "6",
            Value::Seven => "7",
            Value::Eight => "8",
            Value::Nine => "9",
            Value::Ten => "10",
            Value::Jack => "J",
            Value::Queen => "Q",
            Value::King => "K",
            Value::Nil => "_",
        }
    }
}

/// The suit of the `j`-th block of thirteen cards in a fresh deck.
pub open spec fn suit_at(j: int) -> Suit {
    if j == 0 {
        Suit::Clubs
    } else if j == 1 {
        Suit::Diamonds
    } else if j == 2 {
        Suit::Hearts
    } else {
        Suit::Spades
    }
}

/// The `j`-th rank of a suit in a fresh deck, from Ace up to King.
pub open spec fn value_at(j: int) -> Value {
    if j == 0 {
        Value::Ace
    } else if j == 1 {
        Value::Two
    } else if j == 2 {
        Value::Three
    } else if j == 3 {
        Value::Four
    } else if j == 4 {
        Value::Five
    } else if j == 5 {
        Value::Six
    } else if j == 6 {
        Value::Seven
    } else if j == 7 {
        Value::Eight
    } else if j == 8 {
        Value::Nine
    } else if j == 9 {
        Value::Ten
    } else if j == 10 {
        Value::Jack
    } else if j == 11 {
        Value::Queen
    } else {
        Value::King
    }
}

/// The card at position `i` of an unshuffled shoe: decks of 52 follow one
/// another, each made of four suits of thirteen ranks, all face up.
pub open spec fn standard_card(i: int) -> Card {
    Card { value: value_at(i % 13), suit: suit_at((i % 52) / 13), hidden: false }
}

/// An unshuffled shoe of `n` decks.
pub open spec fn shoe(n: nat) -> Seq<Card> {
    Seq::new(52 * n, |i: int| standard_card(i))
}

/// How many cards of `s` have rank `v`.
pub open spec fn count_value(s: Seq<Card>, v: Value) -> nat
    decreases s.len(),
{
    if s.len() == 0 {
        0
    } else {
        count_value(s.drop_last(), v) + if s.last().value == v {
            1nat
        } else {
            0nat
        }
    }
}

/// How many cards of `s` have suit `u`.
pub open spec fn count_suit(s: Seq<Card>, u: Suit) -> nat
    decreases s.len(),
{
    if s.len() == 0 {
        0
    } else {
        count_suit(s.drop_last(), u) + if s.last().suit == u {
            1nat
        } else {
            0nat
        }
    }
}

proof fn lemma_counts_concat(a: Seq<Card>, b: Seq<Card>, v: Value, u: Suit)
    ensures
        count_value(a + b, v) == count_value(a, v) + count_value(b, v),
        count_suit(a + b, u) == count_suit(a, u) + count_suit(b, u),
    decreases b.len(),
{
    if b.len() == 0 {
        assert(a + b =~= a);
    } else {
        lemma_counts_concat(a, b.drop_last(), v, u);
        assert((a + b).drop_last() =~= a + b.drop_last());
    }
}

/// The thirteen ranks of suit `suit_at(k)`, in order, face up.
spec fn suit_block(k: int) -> Seq<Card> {
    Seq::new(13, |i: int| Card { value: value_at(i), suit: suit_at(k), hidden: false })
}

proof fn lemma_block_counts(k: int, v: Value, u: Suit)
    requires
        v != Value::Nil,
    ensures
        count_value(suit_block(k), v) == 1,
        count_suit(suit_block(k), u) == if suit_at(k) == u {
            13nat
        } else {
            0nat
        },
{
    reveal_with_fuel(count_value, 14);
    reveal_with_fuel(count_suit, 14);
    let b = suit_block(k);
    assert(b.drop_last() =~= b.subrange(0, 12));
    assert(b.subrange(0, 12).drop_last() =~= b.subrange(0, 11));
    assert(b.subrange(0, 11).drop_last() =~= b.subrange(0, 10));
    assert(b.subrange(0, 10).drop_last() =~= b.subrange(0, 9));
    assert(b.subrange(0, 9).drop_last() =~= b.subrange(0, 8));
    assert(b.subrange(0, 8).drop_last() =~= b.subrange(0, 7));
    assert(b.subrange(0, 7).drop_last() =~= b.subrange(0, 6));
    assert(b.subrange(0, 6).drop_last() =~= b.subrange(0, 5));
    assert(b.subrange(0, 5).drop_last() =~= b.subrange(0, 4));
    assert(b.subrange(0, 4).drop_last() =~= b.subrange(0, 3));
    assert(b.subrange(0, 3).drop_last() =~= b.subrange(0, 2));
    assert(b.subrange(0, 2).drop_last() =~= b.subrange(0, 1));
    assert(b.subrange(0, 1).drop_last() =~= b.subrange(0, 0));
}

proof fn lemma_one_deck_counts(v: Value, u: Suit)
    requires
        v != Value::Nil,
        u != Suit::Nil,
    ensures
        count_value(shoe(1), v) == 4,
        count_suit(shoe(1), u) == 13,
{
    let d = shoe(1);
    assert(d =~= suit_block(0) + suit_block(1) + suit_block(2) + suit_block(3)) by {
        assert forall|i: int| 0 <= i < 52 implies #[trigger] d[i] == (suit_block(0) + suit_block(
            1,
        ) + suit_block(2) + suit_block(3))[i] by {
            assert(i % 52 == i);
            if i < 13 {
                assert(i / 13 == 0);
            } else if i < 26 {
                assert(i / 13 == 1);
                assert(i % 13 == i - 13);
            } else if i < 39 {
                assert(i / 13 == 2);
                assert(i % 13 == i - 26);
            } else {
                assert(i / 13 == 3);
                assert(i % 13 == i - 39);
            }
        }
    }
    lemma_block_counts(0, v, u);
    lemma_block_counts(1, v, u);
    lemma_block_counts(2, v, u);
    lemma_block_counts(3, v, u);
    lemma_counts_concat(suit_block(0), suit_block(1), v, u);
    lemma_counts_concat(suit_block(0) + suit_block(1), suit_block(2), v, u);
    lemma_counts_concat(suit_block(0) + suit_block(1) + suit_block(2), suit_block(3), v, u);
}

/// A fresh shoe of `n` decks holds `52 * n` cards: `4 * n` of each rank and
/// `13 * n` of each suit.
pub proof fn lemma_shoe_counts(n: nat, v: Value, u: Suit)
    requires
        v != Value::Nil,
        u != Suit::Nil,
    ensures
        shoe(n).len() == 52 * n,
        count_value(shoe(n), v) == 4 * n,
        count_suit(shoe(n), u) == 13 * n,
    decreases n,
{
    if n > 0 {
        let m = (n - 1) as nat;
        lemma_shoe_counts(m, v, u);
        lemma_one_deck_counts(v, u);
        assert(shoe(n) =~= shoe(m) + shoe(1)) by {
            assert forall|i: int| 0 <= i < 52 * n implies #[trigger] shoe(n)[i] == (shoe(m)
                + shoe(1))[i] by {
                if i >= 52 * m {
                    let j = i - 52 * m;
                    assert(i % 13 == j % 13) by (nonlinear_arith)
                        requires j == i - 52 * m, m >= 0;
                    assert(i % 52 == j % 52) by (nonlinear_arith)
                        requires j == i - 52 * m, m >= 0;
                }
            }
        }
        lemma_counts_concat(shoe(m), shoe(1), v, u);
    }
}

fn suit_of_index(j: usize) -> (r: Suit)
    requires
        j < 4,
    ensures
        r == suit_at(j as int),
{
    if j == 0 {
        Suit::Clubs
    } else if j == 1 {
        Suit::Diamonds
    } else if j == 2 {
        Suit::Hearts
    } else {
        Suit::Spades
    }
}

fn value_of_index(j: usize) -> (r: Value)
    requires
        j < 13,
    ensures
        r == value_at(j as int),
{
    if j == 0 {
        Value::Ace
    } else if j == 1 {
        Value::Two
    } else if j == 2 {
        Value::Three
    } else if j == 3 {
        Value::Four
    } else if j == 4 {
        Value::Five
    } else if j == 5 {
        Value::Six
    } else if j == 6 {
        Value::Seven
    } else if j == 7 {
        Value::Eight
    } else if j == 8 {
        Value::Nine
    } else if j == 9 {
        Value::Ten
    } else if j == 10 {
        Value::Jack
    } else if j == 11 {
        Value::Queen
    } else {
        Value::King
    }
}

/// Relies on `rand::Rng::random_range` over the thread-local generator:
/// the index drawn lies in `0..n`.
#[verifier::external_body]
fn random_below(n: usize) -> (r: usize)
    requires
        n > 0,
    ensures
        r < n,
{
    rand::Rng::random_range(&mut rand::rng(), 0..n)
}

/// A shoe: the ordered cards still available to draw, last card on top.
#[derive(Debug, Clone)]
pub struct Deck {
    pub cards: Vec<Card>,
}

impl Deck {
    /// A fresh, unshuffled shoe of `num_decks` full decks, all face up.
    pub fn new(num_decks: u32) -> (r: Self)
        requires
            52 * num_decks <= usize::MAX,
        ensures
            r.cards@ == shoe(num_decks as nat),
    {
        let mut cards: Vec<Card> = Vec::new();
        let mut d: u32 = 0;
        while d < num_decks
            invariant
                d <= num_decks,
                52 * num_decks <= usize::MAX,
                cards@ =~= Seq::new(52 * d as nat, |i: int| standard_card(i)),
            decreases num_decks - d,
        {
            let mut s: usize = 0;
            while s < 4
                invariant
                    d < num_decks,
                    s <= 4,
                    52 * num_decks <= usize::MAX,
                    cards@ =~= Seq::new((52 * d + 13 * s) as nat, |i: int| standard_card(i)),
                decreases 4 - s,
            {
                let suit = suit_of_index(s);
                let mut v: usize = 0;
                while v < 13
                    invariant
                        d < num_decks,
                        s < 4,
                        v <= 13,
                        52 * num_decks <= usize::MAX,
                        suit == suit_at(s as int),
                        cards@ =~= Seq::new(
                            (52 * d + 13 * s + v) as nat,
                            |i: int| standard_card(i),
                        ),
                    decreases 13 - v,
                {
                    let value = value_of_index(v);
                    proof {
                        let i = 52 * d + 13 * s + v;
                        assert(i % 13 == v as int) by (nonlinear_arith)
                            requires i == 52 * d + 13 * s + v, v < 13;
                        assert((i % 52) / 13 == s as int) by (nonlinear_arith)
                            requires i == 52 * d + 13 * s + v, v < 13, s < 4;
                        assert(i < 52 * num_decks) by (nonlinear_arith)
                            requires i == 52 * d + 13 * s + v, v < 13, s < 4, d < num_decks;
                    }
                    cards.push(Card { suit, value, hidden: false });
                    v = v + 1;
                }
                s = s + 1;
            }
            d = d + 1;
        }
        Self { cards }
    }

    /// A new shoe holding every card of this one exactly once, in an order
    /// drawn uniformly at random: each card in turn is taken from a
    /// uniformly chosen position among those not yet taken.
    /// A new shoe holding every card of this one exactly once, in an order
    /// drawn uniformly at random: each card in turn is taken from a
    /// uniformly chosen position among those not yet taken.
    pub fn shuffle(&mut self) -> (r: Deck)
        ensures
            *final(self) == *old(self),
            exists|picks: Seq<usize>|
                valid_picks(old(self).cards@.len() as int, picks) && r.cards@ == #[trigger] take_in_turn(
                    old(self).cards@,
                    picks,
                ),
            r.cards@.len() == old(self).cards@.len(),
            r.cards@.to_multiset() == old(self).cards@.to_multiset(),
    {
        let n = self.cards.len();
        let mut picks: Vec<usize> = Vec::new();
        let mut i: usize = 0;
        while i < n
            invariant
                i <= n,
                picks@.len() == i,
                forall|j: int| 0 <= j < i ==> #[trigger] picks@[j] < n - j,
            decreases n - i,
        {
            let k = random_below(n - i);
            picks.push(k);
            i = i + 1;
        }
        let r = shuffle_with(&self.cards, &picks);
        proof {
            lemma_take_in_turn_permutes(self.cards@, picks@);
        }
        r
    }
}

/// Whether `picks` are positions for taking `n` cards in turn: the `i`-th
/// lies among the `n - i` cards not yet taken.
pub open spec fn valid_picks(n: int, picks: Seq<usize>) -> bool {
    picks.len() == n && forall|i: int| 0 <= i < n ==> #[trigger] picks[i] < n - i
}

/// The cards of `pool` taken in turn: first the card at position `picks[0]`,
/// which leaves the pool, then the rest of `picks` on what remains.
pub open spec fn take_in_turn(pool: Seq<Card>, picks: Seq<usize>) -> Seq<Card>
    decreases picks.len(),
{
    if picks.len() == 0 || picks[0] >= pool.len() {
        Seq::empty()
    } else {
        seq![pool[picks[0] as int]] + take_in_turn(pool.remove(picks[0] as int), picks.drop_first())
    }
}

/// Taking every card of a pool in turn reorders it: each card comes out
/// exactly as many times as it was in.
pub proof fn lemma_take_in_turn_permutes(pool: Seq<Card>, picks: Seq<usize>)
    requires
        valid_picks(pool.len() as int, picks),
    ensures
        take_in_turn(pool, picks).len() == pool.len(),
        take_in_turn(pool, picks).to_multiset() == pool.to_multiset(),
    decreases picks.len(),
{
    broadcast use vstd::seq_lib::group_to_multiset_ensures;
    broadcast use vstd::multiset::group_multiset_axioms;

    if picks.len() == 0 {
        assert(pool =~= Seq::<Card>::empty());
        assert(take_in_turn(pool, picks) =~= Seq::<Card>::empty());
    } else {
        let k = picks[0] as int;
        let rest = picks.drop_first();
        assert forall|i: int| 0 <= i < pool.len() - 1 implies #[trigger] rest[i] < pool.len() - 1
            - i by {
            assert(picks[i + 1] < pool.len() - (i + 1));
        }
        lemma_take_in_turn_permutes(pool.remove(k), rest);
        let tail = take_in_turn(pool.remove(k), rest);
        vstd::seq_lib::lemma_multiset_commutative(seq![pool[k]], tail);
        vstd::seq_lib::to_multiset_remove(pool, k);
        assert(seq![pool[k]].to_multiset() =~= vstd::multiset::Multiset::singleton(pool[k])) by {
            assert(seq![pool[k]] =~= Seq::<Card>::empty().push(pool[k]));
        }
        assert(pool.to_multiset().contains(pool[k])) by {
            vstd::seq_lib::to_multiset_contains(pool, pool[k]);
        }
        assert(take_in_turn(pool, picks).to_multiset() =~= pool.to_multiset());
    }
}

/// A new shoe of the cards of `cards` taken in turn at the positions
/// `picks`: the `i`-th card of the result is the one at `picks[i]` among
/// the cards not yet taken, in their order.
pub fn shuffle_with(cards: &Vec<Card>, picks: &Vec<usize>) -> (r: Deck)
    requires
        valid_picks(cards@.len() as int, picks@),
    ensures
        r.cards@ == take_in_turn(cards@, picks@),
{
    let n = cards.len();
    let mut pool: Vec<Card> = cards.clone();
    let mut out: Vec<Card> = Vec::new();
    let mut i: usize = 0;
    proof {
        assert(pool@ =~= cards@);
        assert(picks@.subrange(0, n as int) =~= picks@);
    }
    while i < n
        invariant
            n == cards@.len(),
            i <= n,
            pool@.len() == n - i,
            valid_picks(n as int, picks@),
            out@ + take_in_turn(pool@, picks@.subrange(i as int, n as int)) == take_in_turn(
                cards@,
                picks@,
            ),
        decreases n - i,
    {
        let k = picks[i];
        proof {
            assert(picks@[i as int] < n - i);
            let sub = picks@.subrange(i as int, n as int);
            assert(sub.drop_first() =~= picks@.subrange(i + 1, n as int));
            assert(sub[0] == k);
        }
        let ghost before = pool@;
        let card = pool.remove(k);
        proof {
            let rest = take_in_turn(pool@, picks@.subrange(i + 1, n as int));
            assert(out@.push(card) + rest =~= out@ + (seq![before[k as int]] + rest));
        }
        out.push(card);
        i = i + 1;
    }
    proof {
        assert(picks@.subrange(n as int, n as int).len() == 0);
        assert(out@ + Seq::<Card>::empty() =~= out@);
    }
    Deck { cards: out }
}

} // verus!
