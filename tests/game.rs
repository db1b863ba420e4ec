use goldfish::card::{panda_deck, Card};
use goldfish::game::{assert_exact_win, assert_exact_win_with_deck, Game};

#[test]
fn deck_length() {
    assert_eq!(panda_deck().len(), 30);
}

#[test]
fn one_type_per_card() {
    for card in Card::all() {
        let mut types = 0;
        if card.minion() {
            types += 1;
        }
        if card.spell() {
            types += 1;
        }
        if card.weapon() {
            types += 1;
        }
        if card == Card::Unknown {
            types += 1;
        }
        assert_eq!(types, 1, "card {} has bad types", card.name());
    }
}

#[test]
fn game_new_game() {
    let game = Game::new();
    assert!(game.hand.len() == 0)
}

#[test]
fn game_making_a_dancer() {
    let c: Card = Card::Dancer;
    assert!(c.cost() == 2);
    assert!(c.minion() == true);
    assert!(c.combo() == false);
}

#[test]
fn main_new_game() {
    let game = Game::new();
    assert!(game.hand.len() == 0)
}

#[test]
fn main_making_a_dancer() {
    let c: Card = Card::Dancer;
    assert!(c.cost() == 2);
    assert!(c.minion() == true);
    assert!(c.combo() == false);
}

#[test]
fn basic_foxy_win() {
    let mut g: Game = Game::new();
    g.mana = 4;
    g.life = 30;
    let hand = vec![
        Card::Foxy,
        Card::Shadowstep,
        Card::Scabbs,
        Card::Shark,
        Card::Tenwu,
        Card::Pillager,
        Card::Pillager,
    ];
    g.add_cards_to_hand(hand);
    g.play_card(&Card::Foxy, None);
    g.play_card(&Card::Shadowstep, Some(Card::Foxy));
    g.play_card(&Card::Foxy, None);
    g.play_card(&Card::Scabbs, None);
    g.play_card(&Card::Shark, None);
    g.play_card(&Card::Tenwu, Some(Card::Scabbs));
    g.play_card(&Card::Scabbs, None);
    g.play_card(&Card::Pillager, None);
    g.play_card(&Card::Pillager, None);
    assert!(g.life <= 0);
}

#[test]
fn anti_renathal_win() {
    let mut g: Game = Game::new();
    g.mana = 7;
    g.life = 44;
    let hand = vec![
        Card::Foxy,
        Card::Shadowstep,
        Card::Scabbs,
        Card::Shark,
        Card::Tenwu,
        Card::Pillager,
        Card::Pillager,
    ];
    g.add_cards_to_hand(hand);
    g.play_card(&Card::Foxy, None);
    g.play_card(&Card::Scabbs, None);
    g.play_card(&Card::Shark, None);
    g.play_card(&Card::Tenwu, Some(Card::Scabbs));
    g.play_card(&Card::Shadowstep, Some(Card::Tenwu));
    g.play_card(&Card::Scabbs, None);
    g.play_card(&Card::Pillager, None);
    g.play_card(&Card::Pillager, None);
    g.play_card(&Card::Tenwu, Some(Card::Pillager));
    g.play_card(&Card::Pillager, None);
    assert!(g.life <= 0);
}

#[test]
fn t3_kill() {
    assert!(assert_exact_win(
        3,
        34,
        vec![
            Card::Coin,
            Card::Foxy,
            Card::Shadowstep,
            Card::Scabbs,
            Card::Shark,
            Card::Tenwu,
            Card::Pillager,
            Card::Pillager,
        ],
    ))
}

#[test]
fn find_basic_foxy_win() {
    assert!(assert_exact_win(
        4,
        30,
        vec![
            Card::Foxy,
            Card::Shadowstep,
            Card::Scabbs,
            Card::Shark,
            Card::Tenwu,
            Card::Pillager,
            Card::Pillager,
        ],
    ))
}

#[test]
fn basic_dancer() {
    assert!(assert_exact_win(
        4,
        34,
        vec![
            Card::Coin,
            Card::Dancer,
            Card::Shadowstep,
            Card::Scabbs,
            Card::Shark,
            Card::Pillager,
            Card::Pillager,
        ],
    ))
}

#[test]
fn potion_and_two_pillagers() {
    assert!(assert_exact_win(
        4,
        54,
        vec![
            Card::Coin,
            Card::Dancer,
            Card::Shadowstep,
            Card::Potion,
            Card::Scabbs,
            Card::Shark,
            Card::Pillager,
            Card::Pillager,
        ],
    ))
}

#[test]
fn potion_and_tenwu() {
    assert!(assert_exact_win(
        4,
        62,
        vec![
            Card::Coin,
            Card::Dancer,
            Card::Shadowstep,
            Card::Potion,
            Card::Scabbs,
            Card::Shark,
            Card::Pillager,
            Card::Tenwu,
        ],
    ))
}

#[test]
fn shark_missing() {
    assert!(assert_exact_win(
        5,
        28,
        vec![
            Card::Coin,
            Card::Dancer,
            Card::Shadowstep,
            Card::Scabbs,
            Card::Tenwu,
            Card::Pillager,
            Card::Potion,
        ],
    ))
}

#[test]
fn basic_foxy_analog() {
    assert!(assert_exact_win(
        5,
        34,
        vec![
            Card::Coin,
            Card::Dancer,
            Card::Scabbs,
            Card::Shark,
            Card::Tenwu,
            Card::Pillager,
            Card::Pillager,
        ],
    ))
}

#[test]
fn pillager_missing_with_foxy() {
    assert!(assert_exact_win(
        5,
        36,
        vec![
            Card::Foxy,
            Card::Shadowstep,
            Card::Shadowstep,
            Card::Scabbs,
            Card::Shark,
            Card::Tenwu,
            Card::Pillager,
        ],
    ))
}

#[test]
fn pillager_missing_with_dancer() {
    assert!(assert_exact_win(
        5,
        36,
        vec![
            Card::Coin,
            Card::Shadowstep,
            Card::Tenwu,
            Card::Scabbs,
            Card::Shark,
            Card::Dancer,
            Card::Pillager,
        ],
    ))
}

#[test]
fn free_card() {
    assert!(assert_exact_win(
        5,
        46,
        vec![
            Card::Coin,
            Card::Cloak,
            Card::Shadowstep,
            Card::Potion,
            Card::Scabbs,
            Card::Shark,
            Card::Dancer,
            Card::Pillager,
        ],
    ))
}

#[test]
fn using_shroud() {
    assert!(assert_exact_win_with_deck(
        5,
        50,
        vec![
            Card::Coin,
            Card::Shroud,
            Card::Shadowstep,
            Card::Scabbs,
            Card::Dancer,
            Card::Tenwu,
            Card::Pillager,
        ],
        vec![Card::Shark, Card::Pillager, Card::Coin],
    ))
}

#[test]
fn fox_scabbs_core() {
    assert!(assert_exact_win(
        6,
        22,
        vec![
            Card::Foxy,
            Card::Scabbs,
            Card::Shark,
            Card::Tenwu,
            Card::Pillager,
            Card::Pillager,
        ],
    ))
}

#[test]
fn advanced_foxy_analog() {
    assert!(assert_exact_win(
        6,
        62,
        vec![
            Card::Coin,
            Card::Dancer,
            Card::Scabbs,
            Card::Shadowstep,
            Card::Shark,
            Card::Tenwu,
            Card::Pillager,
            Card::Pillager,
        ],
    ))
}

#[test]
fn find_anti_renathal_win() {
    assert!(assert_exact_win(
        7,
        44,
        vec![
            Card::Foxy,
            Card::Shadowstep,
            Card::Scabbs,
            Card::Shark,
            Card::Tenwu,
            Card::Pillager,
            Card::Pillager,
        ],
    ))
}

#[test]
fn find_druid_line() {
    assert!(assert_exact_win(
        8,
        72,
        vec![
            Card::Foxy,
            Card::Shadowstep,
            Card::Shadowstep,
            Card::Scabbs,
            Card::Shark,
            Card::Tenwu,
            Card::Pillager,
            Card::Pillager,
        ],
    ))
}
