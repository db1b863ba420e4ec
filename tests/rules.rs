use goldfish::card::{panda_deck, Card, CardInstance};
use goldfish::game::{Action, Game, Play, Plan};
use goldfish::solver::Transpositions;

fn position(mana: i32, life: i32, hand: Vec<Card>, deck: Vec<Card>) -> Game {
    let mut g = Game::new();
    g.mana = mana;
    g.life = life;
    g.add_cards_to_hand(hand);
    g.deck = deck;
    g
}

#[test]
fn card_names_round_trip() {
    for card in Card::all() {
        assert_eq!(Card::from_name(card.name()), card);
    }
    assert_eq!(Card::from_name("Counterfeit Coin"), Card::Coin);
    assert_eq!(Card::from_name("Bananas"), Card::Unknown);
    assert_eq!(Card::from_name("Fireball"), Card::Unknown);
}

#[test]
fn card_ids() {
    assert_eq!(Card::from_card_id("REV_939"), Card::BoneSpike);
    assert_eq!(Card::from_card_id("CFM_630"), Card::Coin);
    assert_eq!(Card::from_card_id("DMF_071"), Card::Tenwu);
    assert_eq!(Card::from_card_id("NOPE_1"), Card::Unknown);
}

#[test]
fn instance_costs() {
    let mut ci = CardInstance::new(&Card::Pillager);
    assert_eq!(ci.cost(), 6);
    ci.potion = true;
    assert_eq!(ci.cost(), 1);
    ci.cost_reduction = 3;
    assert_eq!(ci.cost(), 0);
    let mut step = CardInstance::new(&Card::Shark);
    step.cost_reduction = 2;
    assert_eq!(step.cost(), 2);
    step.cost_reduction = -1;
    assert_eq!(step.cost(), 5);
}

#[test]
fn instance_text() {
    let mut ci = CardInstance::new(&Card::Foxy);
    assert_eq!(ci.describe(), "Foxy Fraud");
    ci.potion = true;
    ci.tenwu = true;
    ci.cost_reduction = 12;
    assert_eq!(ci.describe(), "Foxy Fraud (potion) (tenwu) (-12)");
}

#[test]
fn state_text() {
    let mut g = position(3, -4, vec![Card::Foxy, Card::Coin], vec![]);
    assert_eq!(g.hand_string(), "Foxy Fraud, The Coin");
    g.play(&Play { index: 0, target: None });
    assert_eq!(
        g.describe(),
        "board: Foxy Fraud\nhand: The Coin\nlife: -4\nmana: 1\nstorm: 1\nfoxy: 1\n"
    );
    assert_eq!(g.action_string(&Action::EndTurn), "end turn");
    assert_eq!(g.play_string(&Play { index: 0, target: None }), "The Coin");
}

#[test]
fn discounts_stack() {
    // foxy makes combo cards two cheaper
    let mut g = position(10, 30, vec![Card::Foxy, Card::Pillager, Card::Preparation, Card::Cloak], vec![]);
    g.play(&Play { index: 0, target: None });
    assert_eq!(g.mana, 8);
    assert_eq!(g.cost(0), 4);
    // preparation makes the next spell two cheaper
    g.play(&Play { index: 1, target: None });
    assert_eq!(g.cost(1), 2);
    g.play(&Play { index: 1, target: None });
    assert_eq!(g.mana, 6);
}

#[test]
fn pillager_deals_storm() {
    let mut g = position(10, 30, vec![Card::Coin, Card::Coin, Card::Pillager], vec![]);
    g.play(&Play { index: 0, target: None });
    g.play(&Play { index: 0, target: None });
    g.play(&Play { index: 0, target: None });
    assert_eq!(g.life, 28);
    assert_eq!(g.mana, 6);
}

#[test]
fn shark_doubles_battlecries() {
    let mut g = position(10, 30, vec![Card::Shark, Card::Coin, Card::Pillager], vec![]);
    g.play(&Play { index: 0, target: None });
    g.play(&Play { index: 0, target: None });
    g.play(&Play { index: 0, target: None });
    // storm is 2 when the pillager comes in, twice
    assert_eq!(g.life, 26);
}

#[test]
fn full_hand_discards() {
    let mut g = Game::new();
    g.add_cards_to_hand(vec![Card::Coin; 12]);
    assert_eq!(g.hand.len(), 10);
}

#[test]
fn door_draws_only_spells() {
    let mut g = position(1, 30, vec![Card::Door], vec![Card::Pillager, Card::Coin, Card::Shark]);
    g.play(&Play { index: 0, target: None });
    assert_eq!(g.hand.len(), 1);
    assert_eq!(g.hand[0].card, Card::Coin);
    assert_eq!(g.deck, vec![Card::Pillager, Card::Shark]);
}

#[test]
fn shroud_draws_first_minions_when_few_are_left() {
    let mut g = position(3, 30, vec![Card::Shroud], vec![Card::Coin, Card::Shark, Card::Door, Card::Pillager]);
    g.play(&Play { index: 0, target: None });
    let cards: Vec<Card> = g.hand.iter().map(|ci| ci.card).collect();
    assert_eq!(cards, vec![Card::Shark, Card::Pillager]);
    assert_eq!(g.deck, vec![Card::Coin, Card::Door]);
}

#[test]
fn cutlass_discounts_a_spell() {
    let mut g = position(1, 30, vec![Card::Cutlass, Card::Cloak, Card::Preparation], vec![Card::Pillager]);
    g.play(&Play { index: 0, target: None });
    assert_eq!(g.hand.len(), 3);
    assert_eq!(g.hand[0].card, Card::Cloak);
    assert_eq!(g.hand[0].cost_reduction, 1);
    assert_eq!(g.hand[1].cost_reduction, 0);
    assert_eq!(g.hand[2].card, Card::Pillager);
    assert!(!g.can_combo());
}

#[test]
fn tenwu_bounces_and_costs_one() {
    let mut g = position(10, 30, vec![Card::Foxy, Card::Tenwu], vec![]);
    g.play(&Play { index: 0, target: None });
    g.play(&Play { index: 0, target: Some(0) });
    assert_eq!(g.board, vec![Card::Tenwu]);
    assert_eq!(g.hand.len(), 1);
    assert!(g.hand[0].tenwu);
    assert_eq!(g.cost(0), 1);
}

#[test]
fn gone_fishin_offers_deck_cards() {
    let deck = vec![Card::Coin, Card::Foxy, Card::Door, Card::Shark, Card::Cloak];
    let mut g = position(1, 30, vec![Card::GoneFishin], deck.clone());
    g.play(&Play { index: 0, target: None });
    assert_eq!(g.fish.len(), 3);
    for c in &g.fish {
        assert!(deck.contains(c));
    }
    // while the choice is pending, only choices are legal
    assert!(!g.can_end_turn());
    let actions = g.actions();
    assert_eq!(actions, vec![Action::Choose(0), Action::Choose(1), Action::Choose(2)]);
    let chosen = g.fish[1];
    g.take_action(&Action::Choose(1));
    assert!(g.fish.is_empty());
    assert!(g.can_end_turn());
    assert_eq!(g.hand[0].card, chosen);
    assert_eq!(g.deck.len(), 4);
}

#[test]
fn gone_fishin_offers_whole_small_deck() {
    let deck = vec![Card::Coin, Card::Foxy];
    let mut g = position(1, 30, vec![Card::GoneFishin], deck.clone());
    g.play(&Play { index: 0, target: None });
    assert_eq!(g.fish, deck);
}

#[test]
fn passage_cards_return_at_end_of_turn() {
    let deck = vec![Card::Coin, Card::Coin, Card::Coin, Card::Coin, Card::Door, Card::Door];
    let mut g = position(1, 30, vec![Card::SecretPassage, Card::Foxy], deck);
    g.play(&Play { index: 0, target: None });
    assert_eq!(g.passage.len(), 1);
    assert_eq!(g.hand.len(), 4);
    assert!(g.hand.iter().all(|ci| ci.passage));
    assert_eq!(g.deck.len(), 2);
    g.end_turn();
    assert!(g.passage.is_empty());
    assert_eq!(g.hand.len(), 2);
    assert_eq!(g.hand[0].card, Card::Foxy);
    assert_eq!(g.deck.len(), 5);
    assert_eq!(g.turn, 1);
    assert_eq!(g.mana, 1);
}

#[test]
fn end_turn_refills_mana_up_to_ten() {
    let mut g = position(0, 30, vec![], vec![]);
    g.turn = 11;
    g.end_turn();
    assert_eq!(g.turn, 12);
    assert_eq!(g.mana, 10);
}

#[test]
fn openings() {
    let first = Game::new_going_first(&panda_deck());
    assert_eq!(first.hand.len(), 4);
    assert_eq!(first.deck.len(), 26);
    assert_eq!(first.turn, 1);
    assert_eq!(first.mana, 1);
    assert!(first.turn_is_fresh());
    let second = Game::new_going_second(&panda_deck());
    assert_eq!(second.hand.len(), 6);
    assert_eq!(second.deck.len(), 25);
    assert!(second.hand.iter().any(|ci| ci.card == Card::Coin));
    let any = Game::new_going_random(&panda_deck());
    assert!(any.hand.len() == 4 || any.hand.len() == 6);
}

#[test]
fn listed_actions() {
    let mut g = position(1, 30, vec![Card::Shadowstep, Card::Pillager, Card::Coin], vec![]);
    assert_eq!(g.actions(), vec![Action::EndTurn, Action::Play(Play { index: 2, target: None })]);
    g.board = vec![Card::Foxy, Card::Shark];
    assert_eq!(
        g.actions(),
        vec![
            Action::EndTurn,
            Action::Play(Play { index: 0, target: Some(0) }),
            Action::Play(Play { index: 0, target: Some(1) }),
            Action::Play(Play { index: 2, target: None }),
        ]
    );
    assert_eq!(g.plays().len(), 3);
    assert_eq!(g.non_kill_actions(), vec![Action::EndTurn, Action::Play(Play { index: 2, target: None })]);
    assert_eq!(g.deterministic_plays().len(), 3);
}

#[test]
fn full_board_blocks_minions() {
    let mut g = position(10, 30, vec![Card::Foxy, Card::Coin], vec![]);
    g.board = vec![Card::Shark; 7];
    assert!(!g.can_play(0));
    assert!(g.can_play(1));
}

#[test]
fn random_plays_keep_the_bounds() {
    for _ in 0..5 {
        let mut g = Game::new_going_first(&panda_deck());
        let mut steps = 0;
        while g.turn < 10 && steps < 300 && g.has_room() {
            let before = g.hand.len();
            let action = goldfish::mcts::random_action(&g);
            g.take_action(&action);
            assert!(g.board.len() <= 7);
            assert!(before <= 10);
            assert!(g.hand.len() <= 10);
            for i in 0..g.hand.len() {
                assert!(g.cost(i) >= 0);
            }
            steps += 1;
        }
    }
}

#[test]
fn winning_plan_replays() {
    let hand = vec![Card::Foxy, Card::Scabbs, Card::Shark, Card::Tenwu, Card::Pillager, Card::Pillager];
    let g = position(6, 22, hand, vec![]);
    match g.find_deterministic_win(1000) {
        Plan::Win(plays) => {
            let mut replay = g.clone();
            for p in plays {
                assert!(replay.plays().contains(&p));
                replay.play(&p);
            }
            assert!(replay.life <= 0);
        }
        _ => panic!("expected a win"),
    }
}

#[test]
fn exact_life_flips_win_to_lose() {
    let hand = vec![
        Card::Foxy,
        Card::Shadowstep,
        Card::Scabbs,
        Card::Shark,
        Card::Tenwu,
        Card::Pillager,
        Card::Pillager,
    ];
    let g = position(4, 30, hand.clone(), vec![]);
    assert!(matches!(g.find_deterministic_win(1000), Plan::Win(_)));
    let h = position(4, 31, hand, vec![]);
    assert!(matches!(h.find_deterministic_win(1000), Plan::Lose));
}

#[test]
fn already_won_needs_no_plays() {
    let g = position(0, 0, vec![], vec![]);
    match g.find_deterministic_win(1000) {
        Plan::Win(plays) => assert!(plays.is_empty()),
        _ => panic!("expected a win"),
    }
    let h = position(0, 1, vec![], vec![]);
    assert!(matches!(h.find_deterministic_win(1000), Plan::Lose));
}

#[test]
fn zero_time_limit_times_out_or_decides() {
    let hand = vec![Card::Foxy, Card::Scabbs, Card::Shark, Card::Tenwu, Card::Pillager, Card::Pillager];
    let g = position(6, 23, hand, vec![]);
    match g.find_deterministic_win(0) {
        Plan::Win(_) => panic!("no win exists at this life"),
        Plan::Lose | Plan::Timeout => {}
    }
}

#[test]
fn transposed_orders_share_the_cache() {
    let start = position(2, 30, vec![Card::Coin, Card::Coin, Card::Foxy], vec![]);
    let mut a = start.clone();
    a.play(&Play { index: 0, target: None });
    a.play(&Play { index: 0, target: None });
    let mut b = start.clone();
    b.play(&Play { index: 1, target: None });
    b.play(&Play { index: 0, target: None });
    assert!(a == b);
    assert_eq!(a.hash_value(), b.hash_value());
    assert_ne!(a.hash_value(), start.hash_value());

    let mut cache = Transpositions::new();
    assert!(matches!(start.find_deterministic_win_with(1000, &mut cache), Plan::Lose));
    assert!(cache.len() > 0);
    assert!(matches!(cache.lookup(&b), Some(Plan::Lose)));
    assert!(matches!(cache.lookup(&a), Some(Plan::Lose)));
    let before = cache.len();
    assert!(matches!(b.find_deterministic_win_with(1000, &mut cache), Plan::Lose));
    assert_eq!(cache.len(), before);
}

#[test]
fn hand_order_changes_the_hash() {
    let a = position(2, 30, vec![Card::Coin, Card::Foxy], vec![]);
    let b = position(2, 30, vec![Card::Foxy, Card::Coin], vec![]);
    assert!(a != b);
    assert_ne!(a.hash_value(), b.hash_value());
}

#[test]
fn play_card_by_name() {
    let mut g = position(4, 30, vec![Card::Foxy, Card::Shadowstep], vec![]);
    g.play_card(&Card::Foxy, None);
    g.play_card(&Card::Shadowstep, Some(Card::Foxy));
    assert!(g.board.is_empty());
    assert_eq!(g.hand[0].card, Card::Foxy);
    assert_eq!(g.hand[0].cost_reduction, 2);
    assert_eq!(g.hand[0].cost(), 0);
}

#[test]
fn hand_swap_merge_respects_the_limit() {
    // the set-aside hand and the cards gained after the swap come back, up
    // to ten cards; the rest is discarded
    let mut hand = vec![Card::SecretPassage];
    hand.extend(vec![Card::Coin; 9]);
    let mut g = position(5, 30, hand, vec![Card::Dancer; 4]);
    g.play(&Play { index: 0, target: None });
    assert_eq!(g.passage.len(), 9);
    g.play(&Play { index: 0, target: None });
    g.play(&Play { index: 0, target: None });
    assert_eq!(g.hand.len(), 4);
    g.end_turn();
    assert_eq!(g.hand.len(), 10);
    assert!(g.hand.iter().all(|ci| ci.card == Card::Coin));
    assert_eq!(g.board, vec![Card::Dancer, Card::Dancer]);
}

#[test]
fn position_constructor() {
    let g = Game::from_position(4, 30, vec![Card::Foxy; 12], vec![Card::Coin]);
    assert_eq!(g.mana, 4);
    assert_eq!(g.life, 30);
    assert_eq!(g.hand.len(), 10);
    assert_eq!(g.deck, vec![Card::Coin]);
    assert!(g.well_formed());
}
