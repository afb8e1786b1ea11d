use blackjack::cards::{shuffle_with, Card, Deck, Suit, Value};
use blackjack::game::{calculate_total, stand, Dealer, Errs, Game, Outcome, Player, User};

fn card(value: Value, suit: Suit) -> Card {
    Card::new(value, suit, false)
}

fn dealer_with(hand: Vec<Card>, hidden: Card) -> Dealer {
    <Dealer as User>::from_parts(hand, Some(hidden), None).unwrap()
}

fn player_with(hand: Vec<Card>, bank: i32) -> Player {
    <Player as User>::from_parts(hand, None, Some(bank)).unwrap()
}

fn sorted_key(c: &Card) -> (usize, usize) {
    (c.value as usize, c.suit as usize)
}

#[test]
fn totals_of_small_hands() {
    let h = vec![card(Value::Queen, Suit::Spades), card(Value::Six, Suit::Clubs)];
    assert_eq!(calculate_total(&h), Ok(16));
    let h = vec![card(Value::Ace, Suit::Spades), card(Value::Jack, Suit::Clubs)];
    assert_eq!(calculate_total(&h), Ok(21));
    let h = vec![
        card(Value::Ace, Suit::Spades),
        card(Value::Ace, Suit::Hearts),
        card(Value::Nine, Suit::Clubs),
    ];
    assert_eq!(calculate_total(&h), Ok(21));
    let h = vec![
        card(Value::King, Suit::Spades),
        card(Value::King, Suit::Hearts),
        card(Value::King, Suit::Clubs),
    ];
    assert_eq!(calculate_total(&h), Ok(30));
    assert_eq!(calculate_total(&Vec::new()), Ok(0));
}

#[test]
fn totals_reduce_only_needed_aces() {
    let h = vec![
        card(Value::Ace, Suit::Spades),
        card(Value::Ace, Suit::Hearts),
        card(Value::Ace, Suit::Clubs),
        card(Value::Ace, Suit::Diamonds),
    ];
    assert_eq!(calculate_total(&h), Ok(14));
    let h = vec![
        card(Value::Ace, Suit::Spades),
        card(Value::King, Suit::Hearts),
        card(Value::Queen, Suit::Clubs),
    ];
    assert_eq!(calculate_total(&h), Ok(21));
}

#[test]
fn placeholder_card_is_refused() {
    let h = vec![card(Value::Five, Suit::Spades), Card::new(Value::Nil, Suit::Nil, false)];
    assert_eq!(calculate_total(&h), Err(Errs::CardOutOfRange));
}

#[test]
fn fresh_shoe_counts() {
    let deck = Deck::new(3);
    assert_eq!(deck.cards.len(), 156);
    for v in [Value::Ace, Value::Seven, Value::King] {
        assert_eq!(deck.cards.iter().filter(|c| c.value == v).count(), 12);
    }
    for s in [Suit::Clubs, Suit::Hearts, Suit::Spades, Suit::Diamonds] {
        assert_eq!(deck.cards.iter().filter(|c| c.suit == s).count(), 39);
    }
    assert!(deck.cards.iter().all(|c| !c.hidden));
    assert_eq!(Deck::new(0).cards.len(), 0);
}

#[test]
fn shuffle_keeps_every_card() {
    let mut deck = Deck::new(2);
    let shuffled = deck.shuffle();
    assert_eq!(shuffled.cards.len(), 104);
    let mut a: Vec<(usize, usize)> = deck.cards.iter().map(sorted_key).collect();
    let mut b: Vec<(usize, usize)> = shuffled.cards.iter().map(sorted_key).collect();
    a.sort();
    b.sort();
    assert_eq!(a, b);
    assert_eq!(deck.cards.len(), 104);
}

#[test]
fn shuffle_reorders() {
    let mut deck = Deck::new(1);
    let mut moved = false;
    for _ in 0..5 {
        if deck.shuffle().cards != deck.cards {
            moved = true;
        }
    }
    assert!(moved);
}

#[test]
fn labels() {
    assert_eq!(card(Value::Ten, Suit::Hearts).short_label(), "10h");
    assert_eq!(card(Value::Queen, Suit::Spades).short_label(), "Qs");
    assert_eq!(card(Value::Ace, Suit::Diamonds).short_label(), "Ad");
    assert_eq!(Suit::Clubs.to_char(), 'c');
    assert_eq!(Value::Seven.to_string(), "7");
    let mut c = card(Value::Two, Suit::Clubs);
    c.set_value(Value::Jack);
    c.set_suit(Suit::Hearts);
    c.set_hidden(true);
    assert_eq!(c, Card::new(Value::Jack, Suit::Hearts, true));
}

#[test]
fn construction_errors() {
    let h = card(Value::Two, Suit::Clubs);
    assert_eq!(<Dealer as User>::from_parts(vec![], Some(h), Some(5)).err(), Some(Errs::BankProvided));
    assert_eq!(<Dealer as User>::from_parts(vec![], None, None).err(), Some(Errs::NoHiddenProvided));
    assert_eq!(<Player as User>::from_parts(vec![], Some(h), Some(5)).err(), Some(Errs::HiddenProvided));
    assert_eq!(<Player as User>::from_parts(vec![], None, None).err(), Some(Errs::NoBankProvided));
    assert_eq!(Player::new().bank, 1000);
}

#[test]
fn dealing_from_short_shoe_fails() {
    let mut d = Dealer::new();
    let mut deck = vec![card(Value::Two, Suit::Clubs)];
    assert_eq!(d.deal(&mut deck).err(), Some(Errs::UnknownError));
    assert_eq!(deck.len(), 1);
    assert_eq!(d.hit(&mut deck), Ok(card(Value::Two, Suit::Clubs)));
    assert_eq!(d.hit(&mut deck), Err(Errs::UnknownError));
    let mut game = Game::new(0, Dealer::new(), Player::new());
    assert_eq!(game.deal(), Err(Errs::UnknownError));
    assert_eq!(game.player_hit(), Err(Errs::UnknownError));
}

#[test]
fn dealer_deal_hides_second_card() {
    let mut d = Dealer::new();
    let mut deck = vec![card(Value::Two, Suit::Clubs), card(Value::Five, Suit::Hearts), card(Value::Nine, Suit::Spades)];
    let [c1, c2] = d.deal(&mut deck).unwrap();
    assert_eq!(c1, Card::new(Value::Nine, Suit::Spades, false));
    assert_eq!(c2, Card::new(Value::Five, Suit::Hearts, true));
    assert_eq!(deck.len(), 1);
    let mut p = Player::new();
    let mut deck = vec![card(Value::Two, Suit::Clubs), card(Value::Five, Suit::Hearts)];
    let [first, second] = p.deal(&mut deck).unwrap();
    assert!(!first.hidden && !second.hidden);
}

#[test]
fn deal_fills_both_hands() {
    let mut game = Game::new(1, Dealer::new(), Player::new());
    assert_eq!(game.deal(), Ok(()));
    assert_eq!(game.dealer.hand.len(), 1);
    assert!(!game.dealer.hand[0].hidden);
    assert!(game.dealer.hidden.hidden);
    assert_eq!(game.player.hand.len(), 2);
    assert_eq!(game.cards_left(), 48);
    game.dealer_reveal();
    assert!(!game.dealer.hidden.hidden);
    game.clear();
    assert!(game.dealer.hand.is_empty() && game.player.hand.is_empty());
}

#[test]
fn dealer_draws_to_seventeen() {
    for _ in 0..20 {
        let dealer = dealer_with(vec![card(Value::Queen, Suit::Spades)], card(Value::Six, Suit::Clubs));
        let mut game = Game::new(1, dealer, Player::new());
        game.shuffle();
        let r = game.dealer_checks().unwrap();
        assert!(game.dealer.hand.len() >= 2);
        let mut full = game.dealer.hand.clone();
        full.push(game.dealer.hidden);
        let t = calculate_total(&full).unwrap();
        assert!(t >= 17);
        assert_eq!(r, if t > 21 { (false, true) } else if t == 21 { (true, false) } else { (false, false) });
    }
}

#[test]
fn dealer_runs_out_of_cards() {
    let dealer = dealer_with(vec![card(Value::Two, Suit::Spades)], card(Value::Three, Suit::Clubs));
    let mut game = Game::new(0, dealer, Player::new());
    assert_eq!(game.dealer_checks(), Err(Errs::UnknownError));
}

#[test]
fn dealer_twenty_rests() {
    let dealer = dealer_with(vec![card(Value::Queen, Suit::Spades)], card(Value::Queen, Suit::Clubs));
    let mut game = Game::new(1, dealer, Player::new());
    assert_eq!(game.dealer_checks(), Ok((false, false)));
    assert_eq!(game.dealer.hand.len(), 1);
}

#[test]
fn five_cards_win() {
    let hand = vec![
        card(Value::Two, Suit::Spades),
        card(Value::Three, Suit::Spades),
        card(Value::Two, Suit::Hearts),
        card(Value::Three, Suit::Hearts),
        card(Value::Four, Suit::Clubs),
    ];
    let game = Game::new(1, Dealer::new(), player_with(hand, 10));
    assert_eq!(game.player_checks(), Ok((true, false)));
}

#[test]
fn player_hit_draws_top_card() {
    let hand = vec![card(Value::Two, Suit::Spades), card(Value::Three, Suit::Spades)];
    let mut game = Game::new(1, Dealer::new(), player_with(hand, 10));
    assert_eq!(game.player_hit(), Ok((false, false)));
    assert_eq!(game.player.hand[2], card(Value::King, Suit::Spades));
    assert_eq!(game.cards_left(), 51);
}

#[test]
fn bets() {
    let mut game = Game::new(1, Dealer::new(), player_with(vec![], 100));
    assert_eq!(game.remove_bank(0), Err(Errs::InvalidBet));
    assert_eq!(game.remove_bank(-5), Err(Errs::InvalidBet));
    assert_eq!(game.remove_bank(101), Err(Errs::InvalidBet));
    assert_eq!(game.get_bank(), 100);
    assert_eq!(game.remove_bank(100), Ok(()));
    assert_eq!(game.get_bank(), 0);
    assert_eq!(game.pot, 100);
    game.reset_bank();
    assert_eq!(game.pot, 0);
}

fn settled(player: Vec<Card>, dealer: Vec<Card>, hidden: Card, bet: i32) -> (Result<Outcome, Errs>, i32) {
    let mut game = Game::new(1, dealer_with(dealer, hidden), player_with(player, 1000));
    game.remove_bank(bet).unwrap();
    let r = stand(&mut game);
    (r, game.get_bank())
}

#[test]
fn settlement_win_pays_two_pots() {
    let (r, bank) = settled(
        vec![card(Value::King, Suit::Spades), card(Value::Queen, Suit::Spades)],
        vec![card(Value::Ten, Suit::Hearts)],
        card(Value::Eight, Suit::Clubs),
        50,
    );
    assert_eq!(r, Ok(Outcome::PlayerWin));
    assert_eq!(bank, 1050);
}

#[test]
fn settlement_push_returns_pot() {
    let (r, bank) = settled(
        vec![card(Value::King, Suit::Spades), card(Value::Eight, Suit::Spades)],
        vec![card(Value::Ten, Suit::Hearts)],
        card(Value::Eight, Suit::Clubs),
        50,
    );
    assert_eq!(r, Ok(Outcome::Push));
    assert_eq!(bank, 1000);
}

#[test]
fn settlement_loss_and_dealer_natural() {
    let (r, bank) = settled(
        vec![card(Value::King, Suit::Spades), card(Value::Seven, Suit::Spades)],
        vec![card(Value::Ten, Suit::Hearts)],
        card(Value::Eight, Suit::Clubs),
        50,
    );
    assert_eq!(r, Ok(Outcome::DealerWin));
    assert_eq!(bank, 950);
    let (r, bank) = settled(
        vec![card(Value::King, Suit::Spades), card(Value::Nine, Suit::Spades)],
        vec![card(Value::Ace, Suit::Hearts)],
        card(Value::King, Suit::Clubs),
        50,
    );
    assert_eq!(r, Ok(Outcome::DealerBlackjack));
    assert_eq!(bank, 950);
}

#[test]
fn settlement_dealer_bust() {
    // the shoe's top card is a king of spades
    let (r, bank) = settled(
        vec![card(Value::King, Suit::Spades), card(Value::Two, Suit::Spades)],
        vec![card(Value::Ten, Suit::Hearts)],
        card(Value::Six, Suit::Clubs),
        40,
    );
    assert_eq!(r, Ok(Outcome::DealerBust));
    assert_eq!(bank, 1040);
}

#[test]
fn settlement_player_bust() {
    let (r, bank) = settled(
        vec![card(Value::King, Suit::Spades), card(Value::Queen, Suit::Spades), card(Value::Two, Suit::Spades)],
        vec![card(Value::Ten, Suit::Hearts)],
        card(Value::Six, Suit::Clubs),
        40,
    );
    assert_eq!(r, Ok(Outcome::PlayerBust));
    assert_eq!(bank, 960);
}

#[test]
fn natural_pays_two_and_a_half() {
    let hand = vec![card(Value::Ace, Suit::Spades), card(Value::King, Suit::Spades)];
    let mut game = Game::new(1, Dealer::new(), player_with(hand, 1000));
    game.remove_bank(15).unwrap();
    assert!(game.pay_natural());
    assert_eq!(game.get_bank(), 985 + 37);
    let mut game = Game::new(1, Dealer::new(), player_with(vec![], 1000));
    game.remove_bank(10).unwrap();
    game.add_bank(true);
    assert_eq!(game.get_bank(), 1015);
    game.add_bank(false);
    assert_eq!(game.get_bank(), 1035);
}

#[test]
fn hit_to_twenty_one_pays() {
    let hand = vec![card(Value::Five, Suit::Hearts), card(Value::Six, Suit::Hearts)];
    let mut game = Game::new(1, Dealer::new(), player_with(hand, 100));
    game.remove_bank(20).unwrap();
    assert_eq!(game.play_hit(), Ok((true, false)));
    assert_eq!(game.get_bank(), 120);
}

#[test]
fn insurance_on_dealer_natural_breaks_even() {
    let dealer = dealer_with(vec![card(Value::Ace, Suit::Spades)], Card::new(Value::King, Suit::Hearts, true));
    let mut game = Game::new(1, dealer, player_with(vec![], 500));
    game.remove_bank(75).unwrap();
    assert!(game.insurance_offered());
    assert!(game.ask_insurance(true));
    assert_eq!(game.side_pot, 37);
    assert_eq!(game.get_bank(), 500 - 75 - 37);
    assert!(game.resolve_insurance());
    assert_eq!(game.get_bank(), 500);
    assert!(!game.dealer.hidden.hidden);
}

#[test]
fn insurance_lost_without_natural() {
    let dealer = dealer_with(vec![card(Value::Ace, Suit::Spades)], Card::new(Value::Five, Suit::Hearts, true));
    let mut game = Game::new(1, dealer, player_with(vec![], 500));
    game.remove_bank(40).unwrap();
    assert!(game.ask_insurance(true));
    assert_eq!(game.side_pot, 20);
    assert!(!game.resolve_insurance());
    assert_eq!(game.get_bank(), 440);
}

#[test]
fn insurance_declined_or_not_offered() {
    let dealer = dealer_with(vec![card(Value::Ace, Suit::Spades)], Card::new(Value::Five, Suit::Hearts, true));
    let mut game = Game::new(1, dealer, player_with(vec![], 500));
    game.remove_bank(40).unwrap();
    assert!(!game.ask_insurance(false));
    assert_eq!(game.get_bank(), 460);
    let dealer = dealer_with(vec![card(Value::Nine, Suit::Spades)], Card::new(Value::Five, Suit::Hearts, true));
    let mut game = Game::new(1, dealer, player_with(vec![], 500));
    game.remove_bank(40).unwrap();
    assert!(!game.insurance_offered());
    assert!(!game.ask_insurance(true));
    assert_eq!(game.side_pot, 0);
}

#[test]
fn totals_and_stands() {
    let dealer = dealer_with(vec![card(Value::Nine, Suit::Spades)], Card::new(Value::Ace, Suit::Hearts, true));
    let hand = vec![card(Value::Seven, Suit::Hearts), card(Value::Six, Suit::Hearts)];
    let mut game = Game::new(1, dealer, player_with(hand, 500));
    assert_eq!(game.totals(), Ok((13, 20)));
    assert!(!game.has_blackjack());
    assert_eq!(game.player_stand(), Ok(13));
    assert_eq!(game.dealer_stand(), Ok(20));
    assert_eq!(game.dealer.hand.len(), 2);
}

#[test]
fn new_deck_is_full_and_shuffled() {
    let mut game = Game::new(1, Dealer::new(), Player::new());
    game.new_deck(2);
    assert_eq!(game.cards_left(), 104);
}

#[test]
fn low_shoe_is_refilled() {
    let mut game = Game::new(1, Dealer::new(), Player::new());
    assert!(!game.refill_if_low(2));
    assert_eq!(game.cards_left(), 52);
    game.deck.cards.truncate(14);
    assert!(game.refill_if_low(2));
    assert_eq!(game.cards_left(), 104);
}

#[test]
fn shuffle_with_takes_cards_in_turn() {
    let cards = vec![
        card(Value::Ace, Suit::Clubs),
        card(Value::Two, Suit::Clubs),
        card(Value::Three, Suit::Clubs),
        card(Value::Four, Suit::Clubs),
    ];
    let d = shuffle_with(&cards, &vec![2, 0, 1, 0]);
    assert_eq!(
        d.cards,
        vec![
            card(Value::Three, Suit::Clubs),
            card(Value::Ace, Suit::Clubs),
            card(Value::Four, Suit::Clubs),
            card(Value::Two, Suit::Clubs),
        ]
    );
    let same = shuffle_with(&cards, &vec![0, 0, 0, 0]);
    assert_eq!(same.cards, cards);
    assert!(shuffle_with(&Vec::new(), &Vec::new()).cards.is_empty());
}

#[test]
fn face_down_label_hides_the_card() {
    let a = Card::new(Value::King, Suit::Hearts, true);
    let b = Card::new(Value::Two, Suit::Clubs, true);
    assert_eq!(a.short_label(), "??");
    assert_eq!(a.short_label(), b.short_label());
    assert_eq!(Card::new(Value::Two, Suit::Clubs, false).short_label(), "2c");
}
