use sweep_engine::event::find_last_scorer;
use sweep_engine::state::move_top_card;
use sweep_engine::{
    Card, CardNumber, Deck, FreshGame, GameEvent, GameState, InProgressGame, Player, Rejection,
    Seat, Suit,
};

fn card(suit: Suit, number: u8) -> Card {
    Card { suit, card_number: CardNumber(number) }
}

fn parse(text: &str) -> Vec<Card> {
    text.split_whitespace()
        .map(|word| {
            let suit = match &word[..1] {
                "H" => Suit::Hearts,
                "D" => Suit::Diamonds,
                "C" => Suit::Clubs,
                _ => Suit::Spades,
            };
            card(suit, word[1..].parse().unwrap())
        })
        .collect()
}

fn pile(text: &str) -> Deck {
    let mut deck = Deck::empty();
    for card in parse(text) {
        deck.push_card(card);
    }
    deck
}

fn log_of(events: &[GameEvent]) -> String {
    let names: Vec<String> = events.iter().map(|event| format!("{:?}", event)).collect();
    names.join(" ")
}

fn cards_on_table(game: &InProgressGame) -> usize {
    game.get_deck().len()
        + game.get_player_1_hand().len()
        + game.get_player_2_hand().len()
        + game.get_middle().len()
        + game.get_player_1_score_pile().len()
        + game.get_player_2_score_pile().len()
}

fn snapshot(game: &InProgressGame) -> (Vec<Card>, Vec<Card>, Vec<Card>, Vec<Card>, Vec<Card>, Vec<Card>, Vec<GameEvent>) {
    (
        game.get_deck(),
        game.get_player_1_hand(),
        game.get_player_2_hand(),
        game.get_middle(),
        game.get_player_1_score_pile(),
        game.get_player_2_score_pile(),
        game.get_events(),
    )
}

/// Plays a game to its end: the first player always puts down the first
/// card of the hand, the second player answers with the last one.
fn play_out(seed: u64) -> InProgressGame {
    let mut game = FreshGame::new(seed).start();
    while !game.is_finished() {
        let first = game.get_player_1_hand()[0];
        game = game.play_card(first).expect("a card of the hand is accepted");
        assert_eq!(cards_on_table(&game), 52);
    }
    game
}

#[test]
fn can_start_a_game_from_fresh_game() {
    let fresh = FreshGame::new(123);
    let in_progress = fresh.start();
    assert_eq!(in_progress.get_player_1_hand().len(), 4);
    assert_eq!(in_progress.get_player_2_hand().len(), 4);
    assert_eq!(in_progress.get_player_1_score_pile().len(), 0);
    assert_eq!(in_progress.get_player_2_score_pile().len(), 0);
    assert_eq!(in_progress.get_middle().len(), 4);
    assert_eq!(in_progress.get_deck().len(), 40);
}

#[test]
fn a_started_game_has_logged_three_events() {
    for seed in [0u64, 1, 123, u64::MAX] {
        let game = FreshGame::new(seed).start();
        assert_eq!(
            game.get_events(),
            vec![GameEvent::Started, GameEvent::Shuffled, GameEvent::Dealt]
        );
        assert_eq!(cards_on_table(&game), 52);
        assert_eq!(game.get_player_1_score(), 0);
        assert_eq!(game.get_player_2_score(), 0);
        assert!(!game.is_finished());
    }
}

#[test]
fn the_opening_deal_takes_the_cards_from_the_top() {
    let game = FreshGame::new(123).start();
    assert_eq!(game.get_player_1_hand(), parse("D9 C10 S9 H10"));
    assert_eq!(game.get_middle(), parse("D3 C8 S7 C6"));
    assert_eq!(game.get_player_2_hand(), parse("S5 C3 D11 C12"));
    let expected = "C4 D13 C2 D1 C1 D10 H12 D4 H5 S1 H1 S6 H13 S12 C5 S2 H4 D6 C11 S3 H2 S4 C13 \
                    S11 H3 S8 C9 S13 C7 D12 H7 D7 H8 S10 H6 D8 H11 D2 H9 D5";
    assert_eq!(game.get_deck(), parse(expected));
}

#[test]
fn the_same_seed_starts_the_same_game() {
    let first = FreshGame::new(77).start();
    let second = FreshGame::new(77).start();
    assert_eq!(snapshot(&first), snapshot(&second));
    let other = FreshGame::new(78).start();
    assert_ne!(first.get_deck(), other.get_deck());
}

#[test]
fn a_card_that_is_not_held_is_turned_down() {
    let game = FreshGame::new(123).start();
    assert!(game.clone().play_card(card(Suit::Hearts, 1)).is_none());
    assert!(game.clone().play_card(card(Suit::Spades, 5)).is_none());
    let before = snapshot(&game);
    let refused = game.play_cards(card(Suit::Hearts, 1), card(Suit::Clubs, 12)).unwrap_err();
    assert_eq!(refused.reason, Rejection::CardNotInHand);
    assert_eq!(snapshot(&refused.game), before);
}

#[test]
fn an_answer_that_is_not_held_is_turned_down() {
    let game = FreshGame::new(123).start();
    let before = snapshot(&game);
    let refused = game.play_cards(card(Suit::Diamonds, 9), card(Suit::Diamonds, 9)).unwrap_err();
    assert_eq!(refused.reason, Rejection::AnswerNotInHand);
    assert_eq!(snapshot(&refused.game), before);
}

#[test]
fn cards_without_a_match_stay_in_the_middle() {
    let game = FreshGame::new(123).start();
    let done = game.play_cards(card(Suit::Diamonds, 9), card(Suit::Clubs, 12)).unwrap();
    assert_eq!(done.new_events, vec![GameEvent::Player1Played, GameEvent::Player2Played]);
    let game = done.game;
    assert_eq!(game.get_player_1_hand(), parse("H10 C10 S9"));
    assert_eq!(game.get_player_2_hand(), parse("S5 C3 D11"));
    assert_eq!(game.get_middle(), parse("D3 C8 S7 C6 D9 C12"));
    assert_eq!(game.get_player_1_score_pile(), Vec::new());
    assert_eq!(game.get_player_2_score_pile(), Vec::new());
    assert_eq!(game.get_deck().len(), 40);
    assert_eq!(
        log_of(&game.get_events()),
        "Started Shuffled Dealt Player1Played Player2Played"
    );
}

#[test]
fn a_matching_card_captures_and_logs_one_capture() {
    let game = FreshGame::new(123).start();
    let game = game.play_card(card(Suit::Diamonds, 9)).unwrap();
    let game = game.play_card(card(Suit::Hearts, 10)).unwrap();
    assert_eq!(game.get_middle(), parse("D3 C8 S7 C6 D9 C12 H10 D11"));
    let done = game.play_cards(card(Suit::Spades, 9), card(Suit::Clubs, 3)).unwrap();
    assert_eq!(
        done.new_events,
        vec![
            GameEvent::Player1Scored,
            GameEvent::Player1Played,
            GameEvent::Player2Scored,
            GameEvent::Player2Played
        ]
    );
    let game = done.game;
    assert_eq!(game.get_player_1_score_pile(), parse("D9 S9"));
    assert_eq!(game.get_player_2_score_pile(), parse("D3 C3"));
    assert_eq!(game.get_middle(), parse("H10 C8 S7 C6 D11 C12"));
    assert_eq!(game.get_player_1_hand(), parse("C10"));
    assert_eq!(game.get_player_2_hand(), parse("S5"));
    assert_eq!(cards_on_table(&game), 52);
}

#[test]
fn the_hands_are_dealt_anew_when_they_are_empty() {
    let game = FreshGame::new(123).start();
    let game = game.play_card(card(Suit::Diamonds, 9)).unwrap();
    let game = game.play_card(card(Suit::Hearts, 10)).unwrap();
    let game = game.play_card(card(Suit::Spades, 9)).unwrap();
    let done = game.play_cards(card(Suit::Clubs, 10), card(Suit::Spades, 5)).unwrap();
    assert_eq!(
        log_of(&done.new_events),
        "Player1Scored Player1Played Player2Played RoundOver Dealt"
    );
    let game = done.game;
    assert_eq!(game.get_player_1_hand(), parse("D5 H9 D8 H6"));
    assert_eq!(game.get_player_2_hand(), parse("D2 H11 S10 H8"));
    assert_eq!(game.get_middle(), parse("C12 C8 S7 C6 D11 S5"));
    assert_eq!(game.get_player_1_score_pile(), parse("D9 S9 H10 C10"));
    assert_eq!(game.get_player_2_score_pile(), parse("D3 C3"));
    assert_eq!(game.get_deck().len(), 32);
    assert!(!game.is_finished());
}

#[test]
fn a_whole_game_runs_as_expected() {
    let game = play_out(123);
    let expected = "Started Shuffled Dealt Player1Played Player2Played Player1Played \
        Player2Played Player1Scored Player1Played Player2Scored Player2Played Player1Scored \
        Player1Played Player2Played RoundOver Dealt Player1Scored Player1Played Player2Scored \
        Player2Played Player1Scored Player1Played Player2Played Player1Played Player2Scored \
        Player2Played Player1Played Player2Played RoundOver Dealt Player1Scored Player1Played \
        Player2Played Player1Scored Player1Played Player2Scored Player2Played Player1Played \
        Player2Played Player1Scored Player1Played Player2Scored Player2Played RoundOver Dealt \
        Player1Played Player2Played Player1Scored Player1Played Player2Played Player1Scored \
        Player1Played Player2Scored Player2Played Player1Scored Player1Played Player2Scored \
        Player2Played RoundOver Dealt Player1Played Player2Played Player1Played Player2Scored \
        Player2Played Player1Scored Player1Played Player2Played Player1Scored Player1Played \
        Player2Played RoundOver Dealt Player1Played Player2Scored Player2Played Player1Scored \
        Player1Played Player2Scored Player2Played Player1Played Player2Scored Player2Played \
        Player1Scored Player1Played Player2Scored Player2Wipped Player2Played RoundOver GameOver";
    let expected: Vec<&str> = expected.split_whitespace().collect();
    assert_eq!(log_of(&game.get_events()), expected.join(" "));
    assert_eq!(game.get_events().len(), 90);
    assert_eq!(
        game.get_player_1_score_pile(),
        parse(
            "D9 S9 H10 C10 S5 D5 C6 H6 S7 D7 H9 C9 C7 H7 S11 C11 H3 S3 S13 C13 D6 S6 H5 C5 S2 C2 \
             S12 H12"
        )
    );
    assert_eq!(
        game.get_player_2_score_pile(),
        parse(
            "D3 C3 C8 H8 D11 H11 D8 S8 C12 D12 D2 H2 H4 S4 H1 S1 D4 C4 H13 D13 D1 C1 S10 D10"
        )
    );
    assert_eq!(game.get_player_1_score(), 5);
    assert_eq!(game.get_player_2_score(), 7);
    assert!(game.get_middle().is_empty());
    assert!(game.get_deck().is_empty());
    assert!(game.get_player_1_hand().is_empty());
    assert!(game.get_player_2_hand().is_empty());
    assert!(game.is_finished());
}

#[test]
fn a_finished_game_accepts_no_card() {
    let game = play_out(123);
    let before = snapshot(&game);
    for held in Deck::new().cards() {
        assert!(game.clone().play_card(held).is_none());
    }
    let refused = game.play_cards(card(Suit::Hearts, 1), card(Suit::Hearts, 2)).unwrap_err();
    assert_eq!(refused.reason, Rejection::GameOver);
    assert_eq!(snapshot(&refused.game), before);
    let refused = refused
        .game
        .play_card_with(card(Suit::Hearts, 1), |hand: Vec<Card>, _middle: Vec<Card>| hand[0])
        .unwrap_err();
    assert_eq!(refused.reason, Rejection::GameOver);
    assert_eq!(snapshot(&refused.game), before);
}

#[test]
fn what_is_left_goes_to_the_first_player_who_captured_last() {
    let game = play_out(43);
    let events = game.get_events();
    assert_eq!(
        log_of(&events[events.len() - 8..]),
        "Player1Played Player2Played Player1Scored Player1Wipped Player1Played Player2Played \
         RoundOver GameOver"
    );
    assert_eq!(
        game.get_player_1_score_pile(),
        parse(
            "S3 D3 H13 C13 D13 C9 S9 H10 D10 S8 H8 S7 D7 H6 C6 H1 S1 S4 H4 C10 S10 H7 C7 S13"
        )
    );
    assert_eq!(game.get_player_2_score_pile().len(), 28);
    assert!(game.get_middle().is_empty());
    assert_eq!(game.get_player_1_score(), 6 + 2);
    assert_eq!(game.get_player_2_score(), 5);
}

#[test]
fn what_is_left_goes_to_the_second_player_who_captured_last() {
    let game = play_out(389);
    let events = game.get_events();
    assert_eq!(events.len(), 87);
    assert_eq!(
        log_of(&events[events.len() - 5..]),
        "Player1Played Player2Scored Player2Played RoundOver GameOver"
    );
    let second = game.get_player_2_score_pile();
    assert_eq!(second.len(), 30);
    assert_eq!(second[28..].to_vec(), parse("C10 C1"));
    assert_eq!(game.get_player_1_score_pile().len(), 22);
    assert!(game.get_middle().is_empty());
    assert_eq!(game.get_player_1_score(), 1);
    assert_eq!(game.get_player_2_score(), 10);
}

#[test]
fn a_sweep_counts_a_point_and_is_logged_once() {
    let game = play_out(0);
    let events = game.get_events();
    assert_eq!(events.len(), 91);
    let sweeps = events.iter().filter(|event| **event == GameEvent::Player2Wipped).count();
    assert_eq!(sweeps, 2);
    assert!(!events.contains(&GameEvent::Player1Wipped));
    let mut second = Deck::empty();
    for held in game.get_player_2_score_pile() {
        second.push_card(held);
    }
    assert_eq!(second.count_score(), 4);
    assert_eq!(game.get_player_2_score(), 4 + 2);
    assert_eq!(game.get_player_1_score(), 5);
}

#[test]
fn a_sweep_is_logged_exactly_when_the_middle_is_empty() {
    for seed in [0u64, 43, 123, 389, 7, 2024] {
        let mut game = FreshGame::new(seed).start();
        let mut sweeps_one = 0;
        let mut sweeps_two = 0;
        while !game.is_finished() {
            let first = game.get_player_1_hand()[0];
            let left_by_first = game.middle_after(first);
            let done = game.play_card_with(first, |hand: Vec<Card>, _middle: Vec<Card>| {
                hand[hand.len() - 1]
            });
            let done = done.unwrap();
            let first_swept = done.new_events.contains(&GameEvent::Player1Wipped);
            let second_swept = done.new_events.contains(&GameEvent::Player2Wipped);
            assert_eq!(first_swept, left_by_first.is_empty());
            game = done.game;
            if !game.is_finished() {
                assert_eq!(second_swept, game.get_middle().is_empty());
            }
            if first_swept {
                sweeps_one += 1;
                assert!(done.new_events.contains(&GameEvent::Player1Scored));
            }
            if second_swept {
                sweeps_two += 1;
                assert!(done.new_events.contains(&GameEvent::Player2Scored));
            }
            let mut one = Deck::empty();
            for held in game.get_player_1_score_pile() {
                one.push_card(held);
            }
            let mut two = Deck::empty();
            for held in game.get_player_2_score_pile() {
                two.push_card(held);
            }
            assert_eq!(game.get_player_1_score(), one.count_score() + sweeps_one);
            assert_eq!(game.get_player_2_score(), two.count_score() + sweeps_two);
        }
    }
}

#[test]
fn the_table_always_holds_fifty_two_cards() {
    for seed in 0..40u64 {
        let game = play_out(seed);
        assert_eq!(cards_on_table(&game), 52);
        let mut all = game.get_player_1_score_pile();
        all.extend(game.get_player_2_score_pile());
        for wanted in Deck::new().cards() {
            assert_eq!(all.iter().filter(|held| **held == wanted).count(), 1);
        }
        assert_eq!(*game.get_events().last().unwrap(), GameEvent::GameOver);
    }
}

#[test]
fn the_log_only_grows() {
    let mut game = FreshGame::new(5).start();
    while !game.is_finished() {
        let before = game.get_events();
        let first = game.get_player_1_hand()[0];
        let answer = game.default_answer().unwrap();
        let done = game.play_cards(first, answer).unwrap();
        let after = done.game.get_events();
        assert_eq!(after[..before.len()].to_vec(), before);
        assert_eq!(after[before.len()..].to_vec(), done.new_events);
        game = done.game;
    }
}

#[test]
fn the_same_moves_give_the_same_game() {
    let first = play_out(99);
    let second = play_out(99);
    assert_eq!(snapshot(&first), snapshot(&second));
    assert_eq!(first.get_player_1_score(), second.get_player_1_score());
    assert_eq!(first.get_player_2_score(), second.get_player_2_score());
}

#[test]
fn the_second_player_can_be_given_a_mind_of_its_own() {
    let mut game = FreshGame::new(7).start();
    let mut shown: Vec<Vec<Card>> = Vec::new();
    while !game.is_finished() {
        let hand = game.get_player_1_hand();
        let first = hand[hand.len() - 1];
        let expected_hand = game.get_player_2_hand();
        shown.push(game.middle_after(first));
        let done = game
            .play_card_with(first, |hand: Vec<Card>, middle: Vec<Card>| {
                assert_eq!(hand, expected_hand);
                assert_eq!(&middle, shown.last().unwrap());
                hand[0]
            })
            .unwrap();
        game = done.game;
    }
    assert_eq!(shown[0], parse("D13 H6 S5 H3 C4"));
    assert_eq!(shown[1], parse("D13 H6 S5 H3 C4 D12 D8"));
    assert_eq!(shown[2], parse("D13 H6 S5 H3 C4 D12 D8 H10 C2"));
    assert_eq!(game.get_events().len(), 90);
    assert_eq!(
        game.get_player_1_score_pile(),
        parse("D12 H12 D13 H13 S7 D7 C11 S11 H10 S10 S5 D5 H3 C3 H4 D4 C6 S6 S8 C8 C7 H7 D2 S2")
    );
    assert_eq!(
        game.get_player_2_score_pile(),
        parse(
            "D9 C9 C2 H2 D1 C1 S12 C12 H6 D6 D8 H8 C4 S4 C13 S13 H11 D11 H5 C5 D10 C10 S1 H1 S3 \
             D3 S9 H9"
        )
    );
    assert_eq!(game.get_player_1_score(), 3);
    assert_eq!(game.get_player_2_score(), 8 + 1);
}

#[test]
fn an_answer_from_outside_the_hand_is_turned_down() {
    let game = FreshGame::new(123).start();
    let before = snapshot(&game);
    let refused = game
        .play_card_with(card(Suit::Diamonds, 9), |_hand: Vec<Card>, _middle: Vec<Card>| {
            card(Suit::Hearts, 1)
        })
        .unwrap_err();
    assert_eq!(refused.reason, Rejection::AnswerNotInHand);
    assert_eq!(snapshot(&refused.game), before);
}

#[test]
fn the_second_player_is_not_asked_about_a_card_that_is_not_held() {
    let game = FreshGame::new(123).start();
    let before = snapshot(&game);
    let refused = game
        .play_card_with(card(Suit::Hearts, 1), |_hand: Vec<Card>, _middle: Vec<Card>| {
            panic!("nobody should ask")
        })
        .unwrap_err();
    assert_eq!(refused.reason, Rejection::CardNotInHand);
    assert_eq!(snapshot(&refused.game), before);
}

#[test]
fn the_default_answer_is_the_last_card_of_the_hand() {
    let game = FreshGame::new(123).start();
    assert_eq!(game.default_answer(), Some(card(Suit::Clubs, 12)));
    assert_eq!(play_out(123).default_answer(), None);
}

#[test]
fn the_middle_can_be_looked_at_ahead_of_a_move() {
    let game = FreshGame::new(123).start();
    assert_eq!(game.middle_after(card(Suit::Diamonds, 9)), parse("D3 C8 S7 C6 D9"));
    assert_eq!(game.middle_after(card(Suit::Hearts, 8)), parse("D3 C6 S7"));
    assert_eq!(game.get_middle(), parse("D3 C8 S7 C6"));
}

#[test]
fn a_capture_takes_every_card_of_the_number() {
    let mut middle = pile("H5 D9 C5 S11 S5 H2");
    let mut score_pile = pile("C7 D7");
    let scored = InProgressGame::play_and_score(&mut middle, &mut score_pile, card(Suit::Diamonds, 5));
    assert!(scored);
    assert_eq!(middle.cards(), parse("H2 D9 S11"));
    assert_eq!(score_pile.cards(), parse("C7 D7 H5 C5 S5 D5"));
}

#[test]
fn a_capture_of_the_last_cards_empties_the_middle() {
    let mut middle = pile("H5 C5");
    let mut score_pile = Deck::empty();
    let scored = InProgressGame::play_and_score(&mut middle, &mut score_pile, card(Suit::Spades, 5));
    assert!(scored);
    assert!(middle.is_empty());
    assert_eq!(score_pile.cards(), parse("H5 C5 S5"));
}

#[test]
fn a_card_without_a_match_is_put_on_the_middle() {
    let mut middle = pile("H5 D9 C5");
    let mut score_pile = pile("C7 D7");
    let scored = InProgressGame::play_and_score(&mut middle, &mut score_pile, card(Suit::Diamonds, 6));
    assert!(!scored);
    assert_eq!(middle.cards(), parse("H5 D9 C5 D6"));
    assert_eq!(score_pile.cards(), parse("C7 D7"));
    let mut empty = Deck::empty();
    assert!(!InProgressGame::play_and_score(&mut empty, &mut score_pile, card(Suit::Clubs, 7)));
    assert_eq!(empty.cards(), parse("C7"));
    assert_eq!(score_pile.cards(), parse("C7 D7"));
}

#[test]
fn a_copy_of_a_game_goes_its_own_way() {
    let game = FreshGame::new(123).start();
    let copy = game.clone();
    assert_eq!(snapshot(&game), snapshot(&copy));
    let moved = copy.play_card(card(Suit::Diamonds, 9)).unwrap();
    assert_eq!(game.get_events().len(), 3);
    assert_eq!(moved.get_events().len(), 5);
}

#[test]
fn a_new_player_holds_nothing() {
    let player = Player::new();
    assert!(player.hand.is_empty());
    assert!(player.score_pile.is_empty());
    assert_eq!(player.wip_gains, 0);
}

#[test]
fn a_deal_gives_each_player_four_cards() {
    let mut table = GameState {
        deck: Deck::new(),
        player1: Player::new(),
        player2: Player::new(),
        middle: Deck::empty(),
    };
    assert!(table.can_deal());
    table.deal();
    assert_eq!(table.player1.hand.cards(), parse("S13 C13 S12 C12"));
    assert_eq!(table.player2.hand.cards(), parse("D13 H13 D12 H12"));
    assert!(table.middle.is_empty());
    assert_eq!(table.deck.len(), 44);
    assert_eq!(table.deck.top_card(), Some(card(Suit::Spades, 11)));
}

#[test]
fn the_opening_deal_also_serves_the_middle() {
    let mut table = GameState {
        deck: Deck::new(),
        player1: Player::new(),
        player2: Player::new(),
        middle: Deck::empty(),
    };
    table.deal_opening();
    assert_eq!(table.player1.hand.cards(), parse("S13 C13 D12 H12"));
    assert_eq!(table.middle.cards(), parse("D13 H13 S11 C11"));
    assert_eq!(table.player2.hand.cards(), parse("S12 C12 D11 H11"));
    assert_eq!(table.deck.len(), 40);
}

#[test]
fn a_deal_needs_four_cards_in_the_draw_pile() {
    let mut table = GameState {
        deck: pile("H1 H2 H3"),
        player1: Player::new(),
        player2: Player::new(),
        middle: Deck::empty(),
    };
    assert!(!table.can_deal());
    table.deck.push_card(card(Suit::Hearts, 4));
    assert!(table.can_deal());
    let copy = table.clone();
    assert_eq!(copy.deck.cards(), table.deck.cards());
}

#[test]
fn the_top_card_moves_from_pile_to_pile() {
    let mut from = pile("H1 H2");
    let mut to = pile("S9");
    move_top_card(&mut from, &mut to);
    assert_eq!(from.cards(), parse("H1"));
    assert_eq!(to.cards(), parse("S9 H2"));
    move_top_card(&mut from, &mut to);
    move_top_card(&mut from, &mut to);
    assert!(from.is_empty());
    assert_eq!(to.cards(), parse("S9 H2 H1"));
}

#[test]
fn the_last_capture_in_the_log_names_the_scorer() {
    assert_eq!(find_last_scorer(&Vec::new()), None);
    assert_eq!(
        find_last_scorer(&vec![GameEvent::Started, GameEvent::Shuffled, GameEvent::Dealt]),
        None
    );
    assert_eq!(
        find_last_scorer(&vec![
            GameEvent::Player1Scored,
            GameEvent::Player1Played,
            GameEvent::Player2Scored,
            GameEvent::Player2Wipped,
            GameEvent::Player2Played,
            GameEvent::RoundOver
        ]),
        Some(Seat::Two)
    );
    assert_eq!(
        find_last_scorer(&vec![
            GameEvent::Player2Scored,
            GameEvent::Player2Played,
            GameEvent::Player1Scored,
            GameEvent::Player1Played,
            GameEvent::Player2Played
        ]),
        Some(Seat::One)
    );
}

#[test]
fn each_seat_has_its_own_events() {
    assert_eq!(Seat::One.scored_event(), GameEvent::Player1Scored);
    assert_eq!(Seat::One.wipped_event(), GameEvent::Player1Wipped);
    assert_eq!(Seat::One.played_event(), GameEvent::Player1Played);
    assert_eq!(Seat::Two.scored_event(), GameEvent::Player2Scored);
    assert_eq!(Seat::Two.wipped_event(), GameEvent::Player2Wipped);
    assert_eq!(Seat::Two.played_event(), GameEvent::Player2Played);
}
