//! Hand totals, the dealer and the player, and the round engine that deals,
//! plays the dealer's fixed policy and settles the bank.
use vstd::prelude::*;
use crate::cards::{Card, Deck, Suit, Value, shoe, take_in_turn, valid_picks};

verus! {

/// The errors of the engine.
#[derive(Debug, Clone, Copy, PartialEq, Eq, Structural)]
pub enum Errs {
    /// A placeholder card reached the hand evaluator.
    CardOutOfRange,
    SuitOutRange,
    /// A card was asked of a shoe that had too few.
    UnknownError,
    NoHiddenProvided,
    HiddenProvided,
    NoBankProvided,
    BankProvided,
    /// A wager that is not positive, or larger than the bank.
    InvalidBet,
}

/// At the start of a round, a shoe with this many cards or fewer is replaced.
pub const LOW_WATER: usize = 14;

/// The longest hand whose total, at eleven per card, still fits in an `i32`.
pub const MAX_HAND_LEN: usize = 195_225_786;

/// A card's value before any ace is counted as one.
pub open spec fn base_points(v: Value) -> int {
    match v {
        Value::Ace => 11,
        Value::Two => 2,
        Value::Three => 3,
        Value::Four => 4,
        Value::Five => 5,
        Value::Six => 6,
        Value::Seven => 7,
        Value::Eight => 8,
        Value::Nine => 9,
        Value::Ten | Value::Jack | Value::Queen | Value::King => 10,
        Value::Nil => 0,
    }
}

/// The sum of the base values of a hand, every ace counted as eleven.
pub open spec fn raw_total(h: Seq<Card>) -> int
    decreases h.len(),
{
    if h.len() == 0 {
        0
    } else {
        base_points(h[0].value) + raw_total(h.drop_first())
    }
}

/// The number of aces in a hand.
pub open spec fn ace_count(h: Seq<Card>) -> nat
    decreases h.len(),
{
    if h.len() == 0 {
        0
    } else {
        (if h[0].value == Value::Ace {
            1nat
        } else {
            0nat
        }) + ace_count(h.drop_first())
    }
}

/// `total`, with as many of `aces` aces counted as one instead of eleven as
/// it takes to bring it to 21 or below.
pub open spec fn soften(total: int, aces: nat) -> int
    decreases aces,
{
    if total > 21 && aces > 0 {
        soften(total - 10, (aces - 1) as nat)
    } else {
        total
    }
}

/// The blackjack total of a hand.
pub open spec fn hand_total(h: Seq<Card>) -> int {
    soften(raw_total(h), ace_count(h))
}

/// Whether a placeholder rank stands somewhere in the hand.
pub open spec fn has_placeholder(h: Seq<Card>) -> bool {
    exists|i: int| 0 <= i < h.len() && #[trigger] h[i].value == Value::Nil
}

proof fn lemma_suffix_step(h: Seq<Card>, i: int)
    requires
        0 <= i < h.len(),
    ensures
        raw_total(h.subrange(i, h.len() as int)) == base_points(h[i].value) + raw_total(
            h.subrange(i + 1, h.len() as int),
        ),
        ace_count(h.subrange(i, h.len() as int)) == (if h[i].value == Value::Ace {
            1nat
        } else {
            0nat
        }) + ace_count(h.subrange(i + 1, h.len() as int)),
{
    assert(h.subrange(i, h.len() as int).drop_first() =~= h.subrange(i + 1, h.len() as int));
}

proof fn lemma_raw_bounds(h: Seq<Card>)
    requires
        !has_placeholder(h),
    ensures
        raw_total(h) >= h.len() + 10 * ace_count(h),
        raw_total(h) <= 11 * h.len(),
    decreases h.len(),
{
    if h.len() > 0 {
        assert(!has_placeholder(h.drop_first())) by {
            if has_placeholder(h.drop_first()) {
                let i = choose|i: int|
                    0 <= i < h.drop_first().len() && #[trigger] h.drop_first()[i].value
                        == Value::Nil;
                assert(h[i + 1].value == Value::Nil);
            }
        }
        assert(h[0].value != Value::Nil);
        lemma_raw_bounds(h.drop_first());
    }
}

proof fn lemma_soften_lower(t: int, k: nat)
    ensures
        soften(t, k) >= t - 10 * k,
        soften(t, k) <= t,
    decreases k,
{
    if t > 21 && k > 0 {
        lemma_soften_lower(t - 10, (k - 1) as nat);
    }
}

/// A hand without placeholders totals at least one per card.
pub proof fn lemma_total_at_least_len(h: Seq<Card>)
    requires
        !has_placeholder(h),
    ensures
        hand_total(h) >= h.len(),
{
    lemma_raw_bounds(h);
    lemma_soften_lower(raw_total(h), ace_count(h));
}

/// The blackjack total of a hand: each card at its base value, aces at
/// eleven, then, while the sum is over 21, aces taken in hand order count
/// as one. Fails if a placeholder card is in the hand.
pub fn calculate_total(hand: &Vec<Card>) -> (r: Result<i32, Errs>)
    requires
        hand@.len() <= MAX_HAND_LEN,
    ensures
        r is Ok ==> r->Ok_0 as int == hand_total(hand@),
        r is Err ==> r == Err::<i32, Errs>(Errs::CardOutOfRange),
        r is Err <==> has_placeholder(hand@),
{
    let n = hand.len();
    let mut total: i32 = 0;
    let mut i: usize = 0;
    proof {
        assert(hand@.subrange(0, n as int) =~= hand@);
    }
    while i < n
        invariant
            n == hand@.len(),
            n <= MAX_HAND_LEN,
            i <= n,
            0 <= total <= 11 * i,
            total + raw_total(hand@.subrange(i as int, n as int)) == raw_total(hand@),
            forall|j: int| 0 <= j < i ==> #[trigger] hand@[j].value != Value::Nil,
        decreases n - i,
    {
        proof {
            lemma_suffix_step(hand@, i as int);
        }
        match hand[i].value {
            Value::Ace => {
                total += 11;
            },
            Value::Two => {
                total += 2;
            },
            Value::Three => {
                total += 3;
            },
            Value::Four => {
                total += 4;
            },
            Value::Five => {
                total += 5;
            },
            Value::Six => {
                total += 6;
            },
            Value::Seven => {
                total += 7;
            },
            Value::Eight => {
                total += 8;
            },
            Value::Nine => {
                total += 9;
            },
            Value::Ten | Value::Jack | Value::King | Value::Queen => {
                total += 10;
            },
            Value::Nil => {
                return Err(Errs::CardOutOfRange);
            },
        }
        i = i + 1;
    }
    proof {
        assert(hand@.subrange(n as int, n as int) =~= Seq::<Card>::empty());
    }
    if total > 21 {
        let mut j: usize = 0;
        while j < n
            invariant
                n == hand@.len(),
                j <= n,
                total >= 12,
                soften(total as int, ace_count(hand@.subrange(j as int, n as int))) == hand_total(
                    hand@,
                ),
            decreases n - j,
        {
            proof {
                lemma_suffix_step(hand@, j as int);
            }
            if hand[j].value == Value::Ace && total > 21 {
                total -= 10;
            }
            j = j + 1;
        }
        proof {
            assert(hand@.subrange(n as int, n as int) =~= Seq::<Card>::empty());
        }
    }
    Ok(total)
}

/// Whether two cards have the same rank and suit, face up or down.
pub open spec fn same_face(a: Card, b: Card) -> bool {
    a.value == b.value && a.suit == b.suit
}

/// What the dealer and the player share: drawing from a shoe and scoring a
/// hand. Each draw takes the card on top of the shoe, its last element.
pub trait User: Sized {
    fn new() -> Self;

    /// Draws the two top cards of the shoe, the top one first.
    fn deal(&mut self, deck: &mut Vec<Card>) -> (r: Result<[Card; 2], Errs>)
        ensures
            r is Err <==> old(deck)@.len() < 2,
            r is Err ==> r == Err::<[Card; 2], Errs>(Errs::UnknownError)
                && final(deck)@ == old(deck)@,
            r is Ok ==> final(deck)@ == old(deck)@.subrange(0, old(deck)@.len() - 2) && same_face(
                r->Ok_0[0],
                old(deck)@[old(deck)@.len() - 1],
            ) && same_face(r->Ok_0[1], old(deck)@[old(deck)@.len() - 2]),
            *final(self) == *old(self),
    ;

    /// Draws the top card of the shoe.
    fn hit(&mut self, deck: &mut Vec<Card>) -> (r: Result<Card, Errs>)
        ensures
            r is Err <==> old(deck)@.len() == 0,
            r is Err ==> r == Err::<Card, Errs>(Errs::UnknownError) && final(deck)@ == old(deck)@,
            r is Ok ==> r->Ok_0 == old(deck)@.last() && final(deck)@ == old(deck)@.drop_last(),
            *final(self) == *old(self),
    ;

    /// The total of a hand, as `calculate_total` gives it.
    fn stand(&mut self, hand: &Vec<Card>) -> (r: Result<u32, Errs>)
        requires
            hand@.len() <= MAX_HAND_LEN,
        ensures
            r is Err <==> has_placeholder(hand@),
            r is Err ==> r == Err::<u32, Errs>(Errs::CardOutOfRange),
            r is Ok ==> r->Ok_0 as int == hand_total(hand@),
            *final(self) == *old(self),
    ;

    /// Builds a participant from its parts, refusing the parts it cannot own.
    fn from_parts(hand: Vec<Card>, hidden: Option<Card>, bank: Option<i32>) -> (r: Result<Self, Errs>);
}

fn draw_two(deck: &mut Vec<Card>, hide_second: bool) -> (r: Result<[Card; 2], Errs>)
    ensures
        r is Err <==> old(deck)@.len() < 2,
        r is Err ==> r == Err::<[Card; 2], Errs>(Errs::UnknownError)
            && final(deck)@ == old(deck)@,
        r is Ok ==> final(deck)@ == old(deck)@.subrange(0, old(deck)@.len() - 2) && same_face(
            r->Ok_0[0],
            old(deck)@[old(deck)@.len() - 1],
        ) && same_face(r->Ok_0[1], old(deck)@[old(deck)@.len() - 2]) && !r->Ok_0[0].hidden
            && r->Ok_0[1].hidden == hide_second,
{
    if deck.len() < 2 {
        return Err(Errs::UnknownError);
    }
    let first = match deck.pop() {
        Some(c) => c,
        None => {
            return Err(Errs::UnknownError);
        },
    };
    let second = match deck.pop() {
        Some(c) => c,
        None => {
            return Err(Errs::UnknownError);
        },
    };
    proof {
        assert(deck@ =~= old(deck)@.subrange(0, old(deck)@.len() - 2));
    }
    Ok(
        [
            Card { value: first.value, suit: first.suit, hidden: false },
            Card { value: second.value, suit: second.suit, hidden: hide_second },
        ],
    )
}

fn draw_one(deck: &mut Vec<Card>) -> (r: Result<Card, Errs>)
    ensures
        r is Err <==> old(deck)@.len() == 0,
        r is Err ==> r == Err::<Card, Errs>(Errs::UnknownError) && final(deck)@ == old(deck)@,
        r is Ok ==> r->Ok_0 == old(deck)@.last() && final(deck)@ == old(deck)@.drop_last(),
{
    match deck.pop() {
        Some(card) => Ok(card),
        None => Err(Errs::UnknownError),
    }
}

fn total_of(hand: &Vec<Card>) -> (r: Result<u32, Errs>)
    requires
        hand@.len() <= MAX_HAND_LEN,
    ensures
        r is Err <==> has_placeholder(hand@),
        r is Err ==> r == Err::<u32, Errs>(Errs::CardOutOfRange),
        r is Ok ==> r->Ok_0 as int == hand_total(hand@),
{
    match calculate_total(hand) {
        Ok(total) => {
            proof {
                if !has_placeholder(hand@) {
                    lemma_total_at_least_len(hand@);
                }
            }
            Ok(total as u32)
        },
        Err(e) => Err(e),
    }
}

/// The dealer: a visible hand, and one card kept apart, face down until
/// revealed.
pub struct Dealer {
    pub hand: Vec<Card>,
    pub hidden: Card,
}

impl Dealer {
    /// Turns the kept-apart card face up, leaving its rank and suit.
    pub fn show(&mut self)
        ensures
            final(self).hand@ == old(self).hand@,
            final(self).hidden == (Card { hidden: false, ..old(self).hidden }),
    {
        self.hidden = Card { value: self.hidden.value, suit: self.hidden.suit, hidden: false };
    }

    /// The whole hand: the visible cards, then the kept-apart one.
    pub open spec fn full_hand(&self) -> Seq<Card> {
        self.hand@.push(self.hidden)
    }
}

impl User for Dealer {
    fn new() -> (r: Self)
        ensures
            r.hand@.len() == 0,
            r.hidden == (Card { value: Value::Nil, suit: Suit::Nil, hidden: true }),
    {
        Self { hand: Vec::new(), hidden: Card::new(Value::Nil, Suit::Nil, true) }
    }

    fn from_parts(hand: Vec<Card>, hidden: Option<Card>, bank: Option<i32>) -> (r: Result<Self, Errs>)
        ensures
            bank is Some ==> r == Err::<Self, Errs>(Errs::BankProvided),
            bank is None && hidden is None ==> r == Err::<Self, Errs>(Errs::NoHiddenProvided),
            bank is None && hidden is Some ==> r is Ok && r->Ok_0.hand@ == hand@
                && r->Ok_0.hidden == hidden->Some_0,
    {
        if bank.is_some() {
            Err(Errs::BankProvided)
        } else {
            match hidden {
                Some(h) => Ok(Self { hand, hidden: h }),
                None => Err(Errs::NoHiddenProvided),
            }
        }
    }

    /// The first card drawn is face up, the second face down.
    fn deal(&mut self, deck: &mut Vec<Card>) -> (r: Result<[Card; 2], Errs>)
        ensures
            r is Ok ==> !r->Ok_0[0].hidden && r->Ok_0[1].hidden,
    {
        draw_two(deck, true)
    }

    fn hit(&mut self, deck: &mut Vec<Card>) -> (r: Result<Card, Errs>) {
        draw_one(deck)
    }

    fn stand(&mut self, hand: &Vec<Card>) -> (r: Result<u32, Errs>) {
        total_of(hand)
    }
}

/// The player: a hand and a bank.
pub struct Player {
    pub bank: i32,
    pub hand: Vec<Card>,
}

impl User for Player {
    fn new() -> (r: Self)
        ensures
            r.hand@.len() == 0,
            r.bank == 1000,
    {
        Self { bank: 1000, hand: Vec::new() }
    }

    fn from_parts(hand: Vec<Card>, hidden: Option<Card>, bank: Option<i32>) -> (r: Result<Self, Errs>)
        ensures
            hidden is Some ==> r == Err::<Self, Errs>(Errs::HiddenProvided),
            hidden is None && bank is None ==> r == Err::<Self, Errs>(Errs::NoBankProvided),
            hidden is None && bank is Some ==> r is Ok && r->Ok_0.hand@ == hand@ && r->Ok_0.bank
                == bank->Some_0,
    {
        if hidden.is_some() {
            Err(Errs::HiddenProvided)
        } else {
            match bank {
                Some(b) => Ok(Self { bank: b, hand }),
                None => Err(Errs::NoBankProvided),
            }
        }
    }

    /// Both cards drawn are face up.
    fn deal(&mut self, deck: &mut Vec<Card>) -> (r: Result<[Card; 2], Errs>)
        ensures
            r is Ok ==> !r->Ok_0[0].hidden && !r->Ok_0[1].hidden,
    {
        draw_two(deck, false)
    }

    fn hit(&mut self, deck: &mut Vec<Card>) -> (r: Result<Card, Errs>) {
        draw_one(deck)
    }

    fn stand(&mut self, hand: &Vec<Card>) -> (r: Result<u32, Errs>) {
        total_of(hand)
    }
}

/// What a player's hand means after a draw, as `(won, busted)`: over 21 is
/// a bust; 21, or five cards at 21 or under, wins; otherwise play goes on.
pub open spec fn player_status(h: Seq<Card>) -> (bool, bool) {
    let t = hand_total(h);
    if t > 21 {
        (false, true)
    } else if t == 21 || h.len() == 5 {
        (true, false)
    } else {
        (false, false)
    }
}

/// The player's check of a hand: its status, or the error of its evaluation.
pub open spec fn player_check(h: Seq<Card>) -> Result<(bool, bool), Errs> {
    if has_placeholder(h) {
        Err(Errs::CardOutOfRange)
    } else {
        Ok(player_status(h))
    }
}

/// A natural: two cards totalling exactly 21.
pub open spec fn is_blackjack(h: Seq<Card>) -> bool {
    h.len() == 2 && !has_placeholder(h) && hand_total(h) == 21
}

/// The dealer's resting state, as `(twenty_one, busted)`.
pub open spec fn dealer_status(h: Seq<Card>) -> (bool, bool) {
    let t = hand_total(h);
    if t > 21 {
        (false, true)
    } else if t == 21 {
        (true, false)
    } else {
        (false, false)
    }
}

/// The dealer's drawing policy: while the whole hand (the visible cards and
/// the kept-apart one) totals under 17, the top card of the shoe joins the
/// visible cards. Stops early on a placeholder or an empty shoe. Gives the
/// visible cards and the shoe at the end.
pub open spec fn dealer_play(hand: Seq<Card>, hidden: Card, deck: Seq<Card>) -> (Seq<Card>, Seq<Card>)
    decreases deck.len(),
{
    let full = hand.push(hidden);
    if has_placeholder(full) || hand_total(full) >= 17 || deck.len() == 0 {
        (hand, deck)
    } else {
        dealer_play(hand.push(deck.last()), hidden, deck.drop_last())
    }
}

/// The dealer's whole turn from the given visible cards, kept-apart card and
/// shoe: the result, the visible cards and the shoe afterwards. A natural
/// ends it at once as `(true, true)`; otherwise the dealer plays its policy.
pub open spec fn dealer_turn(hand: Seq<Card>, hidden: Card, deck: Seq<Card>) -> (
    Result<(bool, bool), Errs>,
    Seq<Card>,
    Seq<Card>,
) {
    if is_blackjack(hand.push(hidden)) {
        (Ok((true, true)), hand, deck)
    } else {
        let played = dealer_play(hand, hidden, deck);
        let full = played.0.push(hidden);
        let r = if has_placeholder(full) {
            Err(Errs::CardOutOfRange)
        } else if hand_total(full) < 17 {
            Err(Errs::UnknownError)
        } else {
            Ok(dealer_status(full))
        };
        (r, played.0, played.1)
    }
}

/// The insurance side-pot taken against a pot: half of it, rounded down.
pub open spec fn insurance_stake(pot: int) -> int {
    pot / 2
}

/// What a natural blackjack pays into the bank: two and a half pots, rounded down.
pub open spec fn blackjack_payout(pot: int) -> int {
    (5 * pot) / 2
}

/// What any other win pays into the bank: twice the pot.
pub open spec fn win_payout(pot: int) -> int {
    2 * pot
}

/// A card turned face up or face down, its rank and suit kept.
pub open spec fn turned(c: Card, hidden: bool) -> Card {
    Card { hidden, ..c }
}

/// A bet of `value` went from the bank into the pot.
pub open spec fn bet_placed(before: Game, after: Game, value: int) -> bool {
    after.player.bank == before.player.bank - value && after.pot == value
}

/// Insurance was taken: the side-pot is half the pot, rounded down, and the
/// bank paid it.
pub open spec fn insurance_taken(before: Game, after: Game) -> bool {
    &&& after.side_pot == insurance_stake(before.pot as int)
    &&& after.player.bank == before.player.bank - insurance_stake(before.pot as int)
    &&& after.pot == before.pot
}

/// The pot and the side-pot went back into the bank.
pub open spec fn stakes_returned(before: Game, after: Game) -> bool {
    after.player.bank == before.player.bank + before.pot + before.side_pot
}

/// One table: the shoe, the dealer, the player, the wager in play and the
/// insurance side-pot.
pub struct Game {
    pub deck: Deck,
    pub dealer: Dealer,
    pub player: Player,
    pub pot: i32,
    pub side_pot: i32,
}

impl Game {
    /// A table with a fresh, unshuffled shoe of `num_decks` decks and no wager.
    pub fn new(num_decks: u32, dealer: Dealer, player: Player) -> (r: Self)
        requires
            52 * num_decks <= usize::MAX,
        ensures
            r.deck.cards@ == shoe(num_decks as nat),
            r.dealer == dealer,
            r.player == player,
            r.pot == 0,
            r.side_pot == 0,
    {
        Self { deck: Deck::new(num_decks), dealer, player, pot: 0, side_pot: 0 }
    }

    /// Puts the shoe in a uniformly random order: the new shoe is the old
    /// one taken in turn at positions drawn at random.
    pub fn shuffle(&mut self)
        ensures
            exists|picks: Seq<usize>|
                valid_picks(old(self).deck.cards@.len() as int, picks) && final(self).deck.cards@
                    == #[trigger] take_in_turn(old(self).deck.cards@, picks),
            final(self).deck.cards@.to_multiset() == old(self).deck.cards@.to_multiset(),
            final(self).deck.cards@.len() == old(self).deck.cards@.len(),
            final(self).dealer == old(self).dealer,
            final(self).player == old(self).player,
            final(self).pot == old(self).pot,
            final(self).side_pot == old(self).side_pot,
    {
        self.deck = self.deck.shuffle();
    }

    /// Starts a round: shuffles the shoe, then deals the dealer one card face
    /// up and one kept apart face down, then the player two face up. Fails,
    /// changing nothing, when the shoe holds fewer than four cards.
    pub fn deal(&mut self) -> (r: Result<(), Errs>)
        ensures
            r is Err <==> old(self).deck.cards@.len() < 4,
            r is Err ==> r == Err::<(), Errs>(Errs::UnknownError) && *final(self) == *old(self),
            r is Ok ==> exists|s: Seq<Card>|
                {
                    let n = s.len() as int;
                    &&& #[trigger] s.to_multiset() == old(self).deck.cards@.to_multiset()
                    &&& exists|picks: Seq<usize>|
                        valid_picks(n, picks) && s == #[trigger] take_in_turn(
                            old(self).deck.cards@,
                            picks,
                        )
                    &&& n == old(self).deck.cards@.len()
                    &&& final(self).deck.cards@ == s.subrange(0, n - 4)
                    &&& final(self).dealer.hand@ == old(self).dealer.hand@.push(
                        turned(s[n - 1], false),
                    )
                    &&& final(self).dealer.hidden == turned(s[n - 2], true)
                    &&& final(self).player.hand@ == old(self).player.hand@.push(
                        turned(s[n - 3], false),
                    ).push(turned(s[n - 4], false))
                },
            final(self).player.bank == old(self).player.bank,
            final(self).pot == old(self).pot,
            final(self).side_pot == old(self).side_pot,
    {
        if self.deck.cards.len() < 4 {
            return Err(Errs::UnknownError);
        }
        self.shuffle();
        let ghost s = self.deck.cards@;
        match self.dealer.deal(&mut self.deck.cards) {
            Ok(pair) => {
                self.dealer.hand.push(pair[0]);
                self.dealer.hidden = pair[1];
            },
            Err(e) => {
                return Err(e);
            },
        }
        match self.player.deal(&mut self.deck.cards) {
            Ok(pair) => {
                self.player.hand.push(pair[0]);
                self.player.hand.push(pair[1]);
            },
            Err(e) => {
                return Err(e);
            },
        }
        proof {
            let n = s.len() as int;
            assert(s.subrange(0, n - 2).subrange(0, n - 4) =~= s.subrange(0, n - 4));
            assert(self.deck.cards@ == s.subrange(0, n - 4));
        }
        Ok(())
    }

    /// The player draws the top card of the shoe; the result is the
    /// player's check of the new hand. An empty shoe fails, changing nothing.
    pub fn player_hit(&mut self) -> (r: Result<(bool, bool), Errs>)
        requires
            old(self).player.hand@.len() < MAX_HAND_LEN,
        ensures
            old(self).deck.cards@.len() == 0 ==> r == Err::<(bool, bool), Errs>(
                Errs::UnknownError,
            ) && final(self).deck.cards@ == old(self).deck.cards@ && final(self).player
                == old(self).player,
            old(self).deck.cards@.len() > 0 ==> {
                &&& final(self).player.hand@ == old(self).player.hand@.push(
                    old(self).deck.cards@.last(),
                )
                &&& final(self).deck.cards@ == old(self).deck.cards@.drop_last()
                &&& r == player_check(final(self).player.hand@)
            },
            final(self).dealer == old(self).dealer,
            final(self).player.bank == old(self).player.bank,
            final(self).pot == old(self).pot,
            final(self).side_pot == old(self).side_pot,
    {
        match self.player.hit(&mut self.deck.cards) {
            Ok(card) => {
                self.player.hand.push(card);
                self.player_checks()
            },
            Err(e) => Err(e),
        }
    }

    /// The dealer draws the top card of the shoe, then plays its turn from
    /// there. An empty shoe fails, changing nothing.
    pub fn dealer_hit(&mut self) -> (r: Result<(bool, bool), Errs>)
        requires
            old(self).dealer.hand@.len() + 1 < MAX_HAND_LEN,
        ensures
            old(self).deck.cards@.len() == 0 ==> r == Err::<(bool, bool), Errs>(
                Errs::UnknownError,
            ) && final(self).deck.cards@ == old(self).deck.cards@ && final(self).dealer
                == old(self).dealer,
            old(self).deck.cards@.len() > 0 ==> (
                r,
                final(self).dealer.hand@,
                final(self).deck.cards@,
            ) == dealer_turn(
                old(self).dealer.hand@.push(old(self).deck.cards@.last()),
                old(self).dealer.hidden,
                old(self).deck.cards@.drop_last(),
            ),
            final(self).dealer.hidden == old(self).dealer.hidden,
            final(self).player == old(self).player,
            final(self).pot == old(self).pot,
            final(self).side_pot == old(self).side_pot,
    {
        match self.dealer.hit(&mut self.deck.cards) {
            Ok(card) => {
                self.dealer.hand.push(card);
                self.dealer_checks()
            },
            Err(e) => Err(e),
        }
    }

    /// Turns the dealer's kept-apart card face up.
    pub fn dealer_reveal(&mut self)
        ensures
            final(self).dealer.hand@ == old(self).dealer.hand@,
            final(self).dealer.hidden == turned(old(self).dealer.hidden, false),
            final(self).deck == old(self).deck,
            final(self).player == old(self).player,
            final(self).pot == old(self).pot,
            final(self).side_pot == old(self).side_pot,
    {
        self.dealer.show();
    }

    /// Empties both hands.
    pub fn clear(&mut self)
        ensures
            final(self).dealer.hand@.len() == 0,
            final(self).player.hand@.len() == 0,
            final(self).dealer.hidden == old(self).dealer.hidden,
            final(self).player.bank == old(self).player.bank,
            final(self).deck == old(self).deck,
            final(self).pot == old(self).pot,
            final(self).side_pot == old(self).side_pot,
    {
        self.dealer.hand.clear();
        self.player.hand.clear();
    }

    /// Replaces the shoe with a shuffled fresh one of `num_decks` decks.
    pub fn new_deck(&mut self, num_decks: u32)
        requires
            52 * num_decks <= usize::MAX,
        ensures
            final(self).deck.cards@.to_multiset() == shoe(num_decks as nat).to_multiset(),
            final(self).deck.cards@.len() == 52 * num_decks,
            final(self).dealer == old(self).dealer,
            final(self).player == old(self).player,
            final(self).pot == old(self).pot,
            final(self).side_pot == old(self).side_pot,
    {
        self.deck = Deck::new(num_decks);
        self.shuffle();
    }

    /// Replaces the shoe with a shuffled fresh one of `num_decks` decks when
    /// it holds `LOW_WATER` cards or fewer. Returns whether it did.
    pub fn refill_if_low(&mut self, num_decks: u32) -> (r: bool)
        requires
            52 * num_decks <= usize::MAX,
        ensures
            r == (old(self).deck.cards@.len() <= LOW_WATER),
            r ==> final(self).deck.cards@.to_multiset() == shoe(num_decks as nat).to_multiset()
                && final(self).deck.cards@.len() == 52 * num_decks,
            !r ==> final(self).deck == old(self).deck,
            final(self).dealer == old(self).dealer,
            final(self).player == old(self).player,
            final(self).pot == old(self).pot,
            final(self).side_pot == old(self).side_pot,
    {
        if self.deck.cards.len() <= LOW_WATER {
            self.new_deck(num_decks);
            true
        } else {
            false
        }
    }

    /// Whether insurance is offered: the dealer's face-up card is an ace.
    pub fn insurance_offered(&self) -> (r: bool)
        ensures
            r == (self.dealer.hand@.len() > 0 && self.dealer.hand@[0].value == Value::Ace),
    {
        self.dealer.hand.len() > 0 && self.dealer.hand[0].value == Value::Ace
    }

    /// Settles the insurance offer with the player's answer. When it is
    /// offered and accepted, the side-pot becomes half the pot, rounded down,
    /// and is taken from the bank at once. Returns whether insurance stands.
    pub fn ask_insurance(&mut self, accepted: bool) -> (r: bool)
        requires
            accepted && old(self).dealer.hand@.len() > 0 && old(self).dealer.hand@[0].value
                == Value::Ace ==> old(self).pot >= 0 && old(self).player.bank - insurance_stake(
                old(self).pot as int,
            ) >= i32::MIN,
        ensures
            r == (accepted && old(self).dealer.hand@.len() > 0 && old(self).dealer.hand@[0].value
                == Value::Ace),
            r ==> insurance_taken(*old(self), *final(self)),
            !r ==> *final(self) == *old(self),
            final(self).player.hand == old(self).player.hand,
            final(self).dealer == old(self).dealer,
            final(self).deck == old(self).deck,
            final(self).pot == old(self).pot,
    {
        if accepted && self.insurance_offered() {
            self.side_pot = self.pot / 2;
            self.remove_insurance();
            true
        } else {
            false
        }
    }

    pub fn get_bank(&self) -> (r: i32)
        ensures
            r == self.player.bank,
    {
        self.player.bank
    }

    /// Pays a won pot into the bank: two and a half pots, rounded down, for
    /// a natural blackjack, two pots otherwise.
    pub fn add_bank(&mut self, bj: bool)
        requires
            old(self).pot >= 0,
            old(self).player.bank + (if bj {
                blackjack_payout(old(self).pot as int)
            } else {
                win_payout(old(self).pot as int)
            }) <= i32::MAX,
        ensures
            final(self).player.bank == old(self).player.bank + (if bj {
                blackjack_payout(old(self).pot as int)
            } else {
                win_payout(old(self).pot as int)
            }),
            final(self).player.hand == old(self).player.hand,
            final(self).dealer == old(self).dealer,
            final(self).deck == old(self).deck,
            final(self).pot == old(self).pot,
            final(self).side_pot == old(self).side_pot,
    {
        let gain: i64 = if bj {
            (self.pot as i64) * 5 / 2
        } else {
            (self.pot as i64) * 2
        };
        self.player.bank = (self.player.bank as i64 + gain) as i32;
    }

    /// Zeroes the pot and the side-pot once a round is settled.
    pub fn reset_bank(&mut self)
        ensures
            final(self).pot == 0,
            final(self).side_pot == 0,
            final(self).player == old(self).player,
            final(self).dealer == old(self).dealer,
            final(self).deck == old(self).deck,
    {
        self.pot = 0;
        self.side_pot = 0;
    }

    /// Returns the pot to the bank, and with `i` the side-pot too.
    pub fn revert_bank(&mut self, i: bool)
        requires
            old(self).player.bank + old(self).pot + (if i {
                old(self).side_pot as int
            } else {
                0
            }) <= i32::MAX,
            old(self).pot >= 0,
            i ==> old(self).side_pot >= 0,
        ensures
            final(self).player.bank == old(self).player.bank + old(self).pot + (if i {
                old(self).side_pot as int
            } else {
                0
            }),
            final(self).player.hand == old(self).player.hand,
            final(self).dealer == old(self).dealer,
            final(self).deck == old(self).deck,
            final(self).pot == old(self).pot,
            final(self).side_pot == old(self).side_pot,
    {
        if !i {
            self.player.bank = self.player.bank + self.pot;
        } else {
            self.player.bank = self.player.bank + self.pot + self.side_pot;
        }
    }

    /// Places a wager: a positive amount no larger than the bank moves from
    /// the bank into the pot. Any other amount is refused, changing nothing.
    pub fn remove_bank(&mut self, value: i32) -> (r: Result<(), Errs>)
        ensures
            r is Ok <==> 0 < value <= old(self).player.bank,
            r is Ok ==> bet_placed(*old(self), *final(self), value as int),
            r is Err ==> r == Err::<(), Errs>(Errs::InvalidBet) && *final(self) == *old(self),
            final(self).player.hand == old(self).player.hand,
            final(self).dealer == old(self).dealer,
            final(self).deck == old(self).deck,
            final(self).side_pot == old(self).side_pot,
    {
        if value <= 0 || value > self.player.bank {
            return Err(Errs::InvalidBet);
        }
        self.player.bank = self.player.bank - value;
        self.pot = value;
        Ok(())
    }

    /// Takes the side-pot from the bank.
    pub fn remove_insurance(&mut self)
        requires
            old(self).side_pot >= 0,
            old(self).player.bank - old(self).side_pot >= i32::MIN,
        ensures
            final(self).player.bank == old(self).player.bank - old(self).side_pot,
            final(self).player.hand == old(self).player.hand,
            final(self).dealer == old(self).dealer,
            final(self).deck == old(self).deck,
            final(self).pot == old(self).pot,
            final(self).side_pot == old(self).side_pot,
    {
        self.player.bank = self.player.bank - self.side_pot;
    }

    pub fn cards_left(&self) -> (r: usize)
        ensures
            r == self.deck.cards@.len(),
    {
        self.deck.cards.len()
    }

    /// The player's total and the dealer's total, kept-apart card included.
    pub fn totals(&self) -> (r: Result<(i32, i32), Errs>)
        requires
            self.player.hand@.len() <= MAX_HAND_LEN,
            self.dealer.hand@.len() < MAX_HAND_LEN,
        ensures
            r is Err <==> has_placeholder(self.player.hand@) || has_placeholder(
                self.dealer.full_hand(),
            ),
            r is Err ==> r == Err::<(i32, i32), Errs>(Errs::CardOutOfRange),
            r is Ok ==> r->Ok_0.0 == hand_total(self.player.hand@) && r->Ok_0.1 == hand_total(
                self.dealer.full_hand(),
            ),
    {
        let player_total = match calculate_total(&self.player.hand) {
            Ok(t) => t,
            Err(e) => {
                return Err(e);
            },
        };
        let dh = self.dealer_cards();
        match calculate_total(&dh) {
            Ok(dealer_total) => Ok((player_total, dealer_total)),
            Err(e) => Err(e),
        }
    }

    /// The player's check of the current hand, as `(won, busted)`.
    pub fn player_checks(&self) -> (r: Result<(bool, bool), Errs>)
        requires
            self.player.hand@.len() <= MAX_HAND_LEN,
        ensures
            r == player_check(self.player.hand@),
    {
        match calculate_total(&self.player.hand) {
            Ok(total) => {
                if total > 21 {
                    Ok((false, true))
                } else if total == 21 || self.player.hand.len() == 5 {
                    Ok((true, false))
                } else {
                    Ok((false, false))
                }
            },
            Err(e) => Err(e),
        }
    }

    /// The player's total, for the player's own stand.
    pub fn player_stand(&mut self) -> (r: Result<u32, Errs>)
        requires
            old(self).player.hand@.len() <= MAX_HAND_LEN,
        ensures
            r is Err <==> has_placeholder(old(self).player.hand@),
            r is Err ==> r == Err::<u32, Errs>(Errs::CardOutOfRange),
            r is Ok ==> r->Ok_0 as int == hand_total(old(self).player.hand@),
            *final(self) == *old(self),
    {
        let hand = self.player.hand.clone();
        proof {
            assert(hand@ =~= self.player.hand@);
        }
        self.player.stand(&hand)
    }

    /// Lays the dealer's kept-apart card among the visible ones and gives
    /// the dealer's total.
    pub fn dealer_stand(&mut self) -> (r: Result<u32, Errs>)
        requires
            old(self).dealer.hand@.len() < MAX_HAND_LEN,
        ensures
            final(self).dealer.hand@ == old(self).dealer.full_hand(),
            r is Err <==> has_placeholder(old(self).dealer.full_hand()),
            r is Err ==> r == Err::<u32, Errs>(Errs::CardOutOfRange),
            r is Ok ==> r->Ok_0 as int == hand_total(old(self).dealer.full_hand()),
            final(self).dealer.hidden == old(self).dealer.hidden,
            final(self).player == old(self).player,
            final(self).deck == old(self).deck,
            final(self).pot == old(self).pot,
            final(self).side_pot == old(self).side_pot,
    {
        self.dealer.hand.push(self.dealer.hidden);
        let hand = self.dealer.hand.clone();
        proof {
            assert(hand@ =~= self.dealer.hand@);
        }
        self.player.stand(&hand)
    }

    /// Pays a natural: when the player's first two cards total 21, the bank
    /// gains two and a half pots, rounded down. Returns whether it did.
    pub fn pay_natural(&mut self) -> (r: bool)
        requires
            old(self).pot >= 0,
            old(self).player.bank + blackjack_payout(old(self).pot as int) <= i32::MAX,
        ensures
            r == is_blackjack(old(self).player.hand@),
            final(self).player.bank == old(self).player.bank + (if r {
                blackjack_payout(old(self).pot as int)
            } else {
                0
            }),
            final(self).player.hand == old(self).player.hand,
            final(self).dealer == old(self).dealer,
            final(self).deck == old(self).deck,
            final(self).pot == old(self).pot,
            final(self).side_pot == old(self).side_pot,
    {
        if self.player.hand.len() != 2 {
            return false;
        }
        match calculate_total(&self.player.hand) {
            Ok(total) => {
                if total == 21 {
                    self.add_bank(true);
                    true
                } else {
                    false
                }
            },
            Err(_) => false,
        }
    }

    /// The player hits; a hand that wins on the draw is paid two pots.
    pub fn play_hit(&mut self) -> (r: Result<(bool, bool), Errs>)
        requires
            old(self).player.hand@.len() < MAX_HAND_LEN,
            old(self).pot >= 0,
            old(self).player.bank + win_payout(old(self).pot as int) <= i32::MAX,
        ensures
            old(self).deck.cards@.len() == 0 ==> r == Err::<(bool, bool), Errs>(
                Errs::UnknownError,
            ) && final(self).deck.cards@ == old(self).deck.cards@ && final(self).player
                == old(self).player,
            old(self).deck.cards@.len() > 0 ==> {
                &&& final(self).player.hand@ == old(self).player.hand@.push(
                    old(self).deck.cards@.last(),
                )
                &&& final(self).deck.cards@ == old(self).deck.cards@.drop_last()
                &&& r == player_check(final(self).player.hand@)
            },
            final(self).player.bank == old(self).player.bank + (if r == Ok::<(bool, bool), Errs>(
                (true, false),
            ) {
                win_payout(old(self).pot as int)
            } else {
                0
            }),
            final(self).dealer == old(self).dealer,
            final(self).pot == old(self).pot,
            final(self).side_pot == old(self).side_pot,
    {
        let r = self.player_hit();
        match r {
            Ok((true, false)) => {
                self.add_bank(false);
            },
            _ => {},
        }
        r
    }

    /// Resolves insurance at the start of the player's turn: on a dealer
    /// natural, the pot and the side-pot go back to the bank and the hidden
    /// card is turned up, and the round is over. Returns whether it was.
    pub fn resolve_insurance(&mut self) -> (r: bool)
        requires
            old(self).pot >= 0,
            old(self).side_pot >= 0,
            old(self).player.bank + old(self).pot + old(self).side_pot <= i32::MAX,
        ensures
            r == is_blackjack(old(self).dealer.full_hand()),
            r ==> stakes_returned(*old(self), *final(self)) && final(self).dealer.hidden == turned(old(self).dealer.hidden, false),
            !r ==> *final(self) == *old(self),
            final(self).player.hand == old(self).player.hand,
            final(self).dealer.hand@ == old(self).dealer.hand@,
            final(self).deck == old(self).deck,
            final(self).pot == old(self).pot,
            final(self).side_pot == old(self).side_pot,
    {
        if self.has_blackjack() {
            self.revert_bank(true);
            self.dealer_reveal();
            true
        } else {
            false
        }
    }

    /// The whole dealer hand at the dealer's turn: the visible cards, then
    /// the kept-apart one.
    fn dealer_cards(&self) -> (r: Vec<Card>)
        ensures
            r@ == self.dealer.full_hand(),
    {
        let mut hand = self.dealer.hand.clone();
        proof {
            assert(hand@ =~= self.dealer.hand@);
        }
        hand.push(self.dealer.hidden);
        hand
    }

    /// Whether the dealer holds a natural: the visible card and the
    /// kept-apart one total 21.
    pub fn has_blackjack(&self) -> (r: bool)
        ensures
            r == is_blackjack(self.dealer.full_hand()),
    {
        if self.dealer.hand.len() != 1 {
            return false;
        }
        let hand = self.dealer_cards();
        match calculate_total(&hand) {
            Ok(total) => total == 21,
            Err(_) => false,
        }
    }

    /// Plays the dealer's turn: a natural ends it at once as `(true, true)`;
    /// otherwise the dealer draws while its total is under 17, then reports
    /// `(false, true)` over 21, `(true, false)` at 21, and `(false, false)`
    /// from 17 to 20.
    pub fn dealer_checks(&mut self) -> (r: Result<(bool, bool), Errs>)
        requires
            old(self).dealer.hand@.len() < MAX_HAND_LEN,
        ensures
            (r, final(self).dealer.hand@, final(self).deck.cards@) == dealer_turn(
                old(self).dealer.hand@,
                old(self).dealer.hidden,
                old(self).deck.cards@,
            ),
            final(self).dealer.hidden == old(self).dealer.hidden,
            final(self).player == old(self).player,
            final(self).pot == old(self).pot,
            final(self).side_pot == old(self).side_pot,
    {
        if self.has_blackjack() {
            return Ok((true, true));
        }
        let ghost start = dealer_play(self.dealer.hand@, self.dealer.hidden, self.deck.cards@);
        loop
            invariant
                self.dealer.hand@.len() < MAX_HAND_LEN,
                dealer_play(self.dealer.hand@, self.dealer.hidden, self.deck.cards@) == start,
                start == dealer_play(
                    old(self).dealer.hand@,
                    old(self).dealer.hidden,
                    old(self).deck.cards@,
                ),
                !is_blackjack(old(self).dealer.full_hand()),
                self.dealer.hidden == old(self).dealer.hidden,
                self.player == old(self).player,
                self.pot == old(self).pot,
                self.side_pot == old(self).side_pot,
            decreases self.deck.cards@.len(),
        {
            let hand = self.dealer_cards();
            let total = match calculate_total(&hand) {
                Ok(t) => t,
                Err(e) => {
                    return Err(e);
                },
            };
            if total < 17 {
                proof {
                    lemma_total_at_least_len(hand@);
                }
                match self.dealer.hit(&mut self.deck.cards) {
                    Ok(card) => self.dealer.hand.push(card),
                    Err(e) => {
                        return Err(e);
                    },
                }
            } else if total > 21 {
                return Ok((false, true));
            } else if total == 21 {
                return Ok((true, false));
            } else {
                return Ok((false, false));
            }
        }
    }
}

/// How a round that the player stood on ends.
#[derive(Debug, Clone, Copy, PartialEq, Eq, Structural)]
pub enum Outcome {
    /// The player's hand is over 21: the pot is lost.
    PlayerBust,
    /// The dealer holds a natural: the pot is lost.
    DealerBlackjack,
    /// The dealer went over 21: two pots are paid.
    DealerBust,
    /// The player's total beats the dealer's: two pots are paid.
    PlayerWin,
    /// Equal totals: the pot is returned.
    Push,
    /// The dealer's total beats the player's: the pot is lost.
    DealerWin,
}

/// The outcome of a stand with player total `pt`, once the dealer's turn
/// gave `dealer` and left the dealer with total `dt`.
pub open spec fn stand_outcome(pt: int, dealer: (bool, bool), dt: int) -> Outcome {
    if pt > 21 {
        Outcome::PlayerBust
    } else if dealer == (true, true) {
        Outcome::DealerBlackjack
    } else if dealer.1 {
        Outcome::DealerBust
    } else if pt > dt {
        Outcome::PlayerWin
    } else if pt == dt {
        Outcome::Push
    } else {
        Outcome::DealerWin
    }
}

/// What an outcome puts back into the bank, out of a pot of `pot`.
pub open spec fn payout(o: Outcome, pot: int) -> int {
    match o {
        Outcome::DealerBust | Outcome::PlayerWin => win_payout(pot),
        Outcome::Push => pot,
        _ => 0,
    }
}

/// The player stands: a hand over 21 has lost already; otherwise the dealer's
/// card is turned up, the dealer plays its turn, and the round is settled:
/// a dealer natural wins, a dealer bust pays two pots, and otherwise the
/// higher total wins two pots, equal totals return the pot.
pub fn stand(game: &mut Game) -> (r: Result<Outcome, Errs>)
    requires
        old(game).player.hand@.len() <= MAX_HAND_LEN,
        old(game).dealer.hand@.len() < MAX_HAND_LEN,
        old(game).pot >= 0,
        old(game).player.bank + win_payout(old(game).pot as int) <= i32::MAX,
    ensures
        has_placeholder(old(game).player.hand@) ==> r == Err::<Outcome, Errs>(
            Errs::CardOutOfRange,
        ) && *final(game) == *old(game),
        !has_placeholder(old(game).player.hand@) && hand_total(old(game).player.hand@) > 21 ==> r
            == Ok::<Outcome, Errs>(Outcome::PlayerBust) && *final(game) == *old(game),
        !has_placeholder(old(game).player.hand@) && hand_total(old(game).player.hand@) <= 21 ==> {
            let revealed = turned(old(game).dealer.hidden, false);
            let t = dealer_turn(old(game).dealer.hand@, revealed, old(game).deck.cards@);
            &&& final(game).dealer.hand@ == t.1
            &&& final(game).deck.cards@ == t.2
            &&& final(game).dealer.hidden == revealed
            &&& t.0 is Err ==> r == Err::<Outcome, Errs>(t.0->Err_0)
            &&& t.0 is Ok ==> r == Ok::<Outcome, Errs>(
                stand_outcome(
                    hand_total(old(game).player.hand@),
                    t.0->Ok_0,
                    hand_total(t.1.push(revealed)),
                ),
            )
        },
        r is Ok ==> final(game).player.bank == old(game).player.bank + payout(
            r->Ok_0,
            old(game).pot as int,
        ),
        r is Err ==> final(game).player.bank == old(game).player.bank,
        final(game).player.hand == old(game).player.hand,
        final(game).pot == old(game).pot,
        final(game).side_pot == old(game).side_pot,
{
    let pt = match calculate_total(&game.player.hand) {
        Ok(t) => t,
        Err(e) => {
            return Err(e);
        },
    };
    if pt > 21 {
        return Ok(Outcome::PlayerBust);
    }
    game.dealer_reveal();
    let checks = match game.dealer_checks() {
        Ok(c) => c,
        Err(e) => {
            return Err(e);
        },
    };
    if checks.0 && checks.1 {
        return Ok(Outcome::DealerBlackjack);
    }
    if checks.1 {
        game.add_bank(false);
        return Ok(Outcome::DealerBust);
    }
    let dh = game.dealer_cards();
    proof {
        lemma_total_at_least_len(dh@);
    }
    let dt = match calculate_total(&dh) {
        Ok(t) => t,
        Err(e) => {
            return Err(e);
        },
    };
    if pt > dt {
        game.add_bank(false);
        Ok(Outcome::PlayerWin)
    } else if pt == dt {
        game.revert_bank(false);
        Ok(Outcome::Push)
    } else {
        Ok(Outcome::DealerWin)
    }
}

proof fn lemma_play_grows(hand: Seq<Card>, hidden: Card, deck: Seq<Card>)
    ensures
        dealer_play(hand, hidden, deck).0.len() >= hand.len(),
        !has_placeholder(hand.push(hidden)) && !has_placeholder(deck) ==> !has_placeholder(
            dealer_play(hand, hidden, deck).0.push(hidden),
        ),
    decreases deck.len(),
{
    let full = hand.push(hidden);
    if !(has_placeholder(full) || hand_total(full) >= 17 || deck.len() == 0) {
        let h2 = hand.push(deck.last());
        lemma_play_grows(h2, hidden, deck.drop_last());
        if !has_placeholder(full) && !has_placeholder(deck) {
            assert(!has_placeholder(deck.drop_last())) by {
                if has_placeholder(deck.drop_last()) {
                    let i = choose|i: int|
                        0 <= i < deck.drop_last().len() && #[trigger] deck.drop_last()[i].value
                            == Value::Nil;
                    assert(deck[i].value == Value::Nil);
                }
            }
            assert(!has_placeholder(h2.push(hidden))) by {
                if has_placeholder(h2.push(hidden)) {
                    let i = choose|i: int|
                        0 <= i < h2.push(hidden).len() && #[trigger] h2.push(hidden)[i].value
                            == Value::Nil;
                    if i < hand.len() {
                        assert(full[i].value == Value::Nil);
                    } else if i == hand.len() {
                        assert(deck[deck.len() - 1].value == Value::Nil);
                    } else {
                        assert(full[hand.len() as int].value == Value::Nil);
                    }
                }
            }
        }
    }
}

/// The dealer never rests under 17. From cards and a shoe without
/// placeholders, the dealer's turn either ends with a total of 17 or more,
/// or fails only because the shoe ran out; and a hand under 17 with cards
/// left in the shoe draws at least one card.
pub proof fn lemma_dealer_policy(hand: Seq<Card>, hidden: Card, deck: Seq<Card>)
    requires
        !has_placeholder(hand.push(hidden)),
        !has_placeholder(deck),
    ensures
        ({
            let t = dealer_turn(hand, hidden, deck);
            &&& t.0 is Ok ==> hand_total(t.1.push(hidden)) >= 17
            &&& t.0 is Err ==> t.0 == Err::<(bool, bool), Errs>(Errs::UnknownError)
                && t.2.len() == 0
            &&& hand_total(hand.push(hidden)) < 17 && deck.len() > 0 ==> t.1.len() > hand.len()
        }),
{
    lemma_play_grows(hand, hidden, deck);
    let full = hand.push(hidden);
    if hand_total(full) < 17 && deck.len() > 0 {
        lemma_play_grows(hand.push(deck.last()), hidden, deck.drop_last());
    }
    lemma_play_stops(hand, hidden, deck);
}

proof fn lemma_play_stops(hand: Seq<Card>, hidden: Card, deck: Seq<Card>)
    ensures
        ({
            let p = dealer_play(hand, hidden, deck);
            has_placeholder(p.0.push(hidden)) || hand_total(p.0.push(hidden)) >= 17 || p.1.len()
                == 0
        }),
    decreases deck.len(),
{
    let full = hand.push(hidden);
    if !(has_placeholder(full) || hand_total(full) >= 17 || deck.len() == 0) {
        lemma_play_stops(hand.push(deck.last()), hidden, deck.drop_last());
    }
}

/// Five cards without a bust win for the player, whatever their total.
pub proof fn lemma_five_card_win(h: Seq<Card>)
    requires
        h.len() == 5,
        !has_placeholder(h),
        hand_total(h) <= 21,
    ensures
        player_check(h) == Ok::<(bool, bool), Errs>((true, false)),
{
}

/// Settlement arithmetic: against a dealer resting at 21 or under without a
/// natural, a higher player total is paid two pots and an equal one gets the
/// pot back, so the bank ends where it stood before the bet; a natural is
/// paid two and a half pots, rounded down.
pub proof fn lemma_settlement_payouts(pt: int, dealer: (bool, bool), dt: int, pot: int)
    requires
        pot >= 0,
        pt <= 21,
        dealer == (false, false) || dealer == (true, false),
    ensures
        pt > dt ==> payout(stand_outcome(pt, dealer, dt), pot) == 2 * pot,
        pt == dt ==> payout(stand_outcome(pt, dealer, dt), pot) == pot,
        pt < dt ==> payout(stand_outcome(pt, dealer, dt), pot) == 0,
        2 * blackjack_payout(pot) <= 5 * pot < 2 * blackjack_payout(pot) + 2,
{
}

/// Insurance against a dealer natural breaks even: a bet placed with
/// `remove_bank`, insurance taken with `ask_insurance`, and both stakes
/// returned by `resolve_insurance` leave the bank where it stood before the
/// bet, the side-pot having been half the bet, rounded down.
pub proof fn lemma_insured_blackjack_breaks_even(
    start: Game,
    betted: Game,
    insured: Game,
    settled: Game,
    bet: int,
)
    requires
        bet_placed(start, betted, bet),
        insurance_taken(betted, insured),
        stakes_returned(insured, settled),
    ensures
        insured.side_pot == bet / 2,
        settled.player.bank == start.player.bank,
{
}

} // verus!
