use goldfish::card::Card;
use goldfish::game::{Action, Game, Play};
use goldfish::mcts::{
    escape_policy, mcts_action, random_policy, ActionStats, Policy, PriorPolicy, StateData, MCTS,
    PRIOR_ONE,
};
use goldfish::player::escape_bot_action;

fn stats(action: Action, prior: u64, reward_sum: u64, visits: u64) -> ActionStats {
    ActionStats { action, prior, reward_sum, visits }
}

#[test]
fn explore_prefers_the_last_of_equal_scores() {
    let d = StateData {
        deterministic_win: false,
        actions: vec![
            stats(Action::EndTurn, PRIOR_ONE / 2, 0, 0),
            stats(Action::Play(Play { index: 0, target: None }), PRIOR_ONE / 2, 0, 0),
        ],
    };
    assert_eq!(d.explore_index(), 1);
}

#[test]
fn explore_weighs_mean_and_bonus() {
    // score = mean + sqrt(0.01 + 1) * prior / (1 + visits)
    let d = StateData {
        deterministic_win: false,
        actions: vec![
            stats(Action::EndTurn, 0, 10, 1),
            stats(Action::Play(Play { index: 0, target: None }), PRIOR_ONE, 0, 0),
        ],
    };
    assert_eq!(d.explore_index(), 0);
    // a large prior on an unvisited move beats a small mean
    let e = StateData {
        deterministic_win: false,
        actions: vec![
            stats(Action::EndTurn, 0, 1, 2),
            stats(Action::Play(Play { index: 0, target: None }), PRIOR_ONE, 0, 0),
        ],
    };
    assert_eq!(e.explore_index(), 1);
}

#[test]
fn update_keeps_the_running_mean() {
    let mut d = StateData {
        deterministic_win: false,
        actions: vec![stats(Action::EndTurn, PRIOR_ONE, 6, 2)],
    };
    d.update(0, 9);
    assert_eq!(d.actions[0].reward_sum, 15);
    assert_eq!(d.actions[0].visits, 3);
    d.update(0, 0);
    assert_eq!(d.actions[0].reward_sum, 15);
    assert_eq!(d.actions[0].visits, 4);
}

#[test]
fn best_action_ignores_the_bonus() {
    let d = StateData {
        deterministic_win: false,
        actions: vec![
            stats(Action::EndTurn, PRIOR_ONE, 5, 1),
            stats(Action::Play(Play { index: 0, target: None }), 0, 10, 2),
            stats(Action::Play(Play { index: 1, target: None }), PRIOR_ONE, 4, 1),
        ],
    };
    // 5/1 and 10/2 tie: the last of them wins
    assert_eq!(d.best_index(), 1);
    assert_eq!(d.best_action(), Action::Play(Play { index: 0, target: None }));
}

#[test]
fn uniform_priors() {
    let g = Game::new();
    let actions = vec![Action::EndTurn, Action::Choose(0), Action::Choose(1)];
    assert_eq!(random_policy(&g, &actions), vec![1431655765, 1431655765, 1431655765]);
}

#[test]
fn mirror_priors_follow_the_bot() {
    let mut g = Game::new();
    g.mana = 1;
    g.add_cards_to_hand(vec![Card::Door]);
    g.deck = vec![Card::Coin];
    let actions = g.non_kill_actions();
    assert_eq!(actions, vec![Action::EndTurn, Action::Play(Play { index: 0, target: None })]);
    assert_eq!(escape_bot_action(&g), Action::Play(Play { index: 0, target: None }));
    assert_eq!(escape_policy(&g, &actions), vec![1717986918, 2576980377]);
    assert_eq!(Policy::Escape.priors(&g, &actions), vec![1717986918, 2576980377]);
    // a move the bot would not pick gets uniform priors
    let only_end = vec![Action::EndTurn, Action::Choose(0)];
    assert_eq!(escape_policy(&g, &only_end), vec![PRIOR_ONE / 2, PRIOR_ONE / 2]);
}

#[test]
fn bot_prefers_combo_cards() {
    let mut g = Game::new();
    g.mana = 5;
    g.add_cards_to_hand(vec![Card::Coin, Card::Door, Card::Swindle]);
    g.deck = vec![Card::Coin, Card::Shark];
    // no combo yet: the first useful card
    assert_eq!(escape_bot_action(&g), Action::Play(Play { index: 1, target: None }));
    g.play(&Play { index: 0, target: None });
    // combo live: swindle first
    assert_eq!(escape_bot_action(&g), Action::Play(Play { index: 1, target: None }));
    let mut h = Game::new();
    h.add_cards_to_hand(vec![Card::Pillager]);
    assert_eq!(escape_bot_action(&h), Action::EndTurn);
}

#[test]
fn proven_wins_are_not_explored_again() {
    let mut g = Game::new();
    g.mana = 6;
    g.turn = 6;
    g.life = 22;
    g.add_cards_to_hand(vec![Card::Foxy, Card::Scabbs, Card::Shark, Card::Tenwu, Card::Pillager, Card::Pillager]);
    let mut mcts = MCTS::new(Policy::Random);
    assert_eq!(mcts.playout(&g), 4);
    let d = mcts.statistics(&g).expect("the state is recorded");
    assert!(d.deterministic_win);
    assert!(d.actions.is_empty());
    for _ in 0..3 {
        assert_eq!(mcts.playout(&g), 4);
        let again = mcts.statistics(&g).expect("the state is recorded");
        assert!(again.deterministic_win);
        assert!(again.actions.is_empty());
    }
    // with no move statistics, the first exploratory move is chosen
    assert_eq!(mcts.best_action(&g), g.non_kill_actions()[0]);
}

#[test]
fn playouts_stop_at_the_horizon() {
    let mut g = Game::new();
    g.turn = 10;
    let mut mcts = MCTS::new(Policy::Random);
    assert_eq!(mcts.playout(&g), 0);
    assert!(mcts.statistics(&g).is_none());
    assert_eq!(mcts.best_action(&g), Action::EndTurn);
}

#[test]
fn playouts_record_statistics() {
    let mut g = Game::new();
    g.turn = 8;
    g.mana = 8;
    g.life = 100;
    g.add_cards_to_hand(vec![Card::Coin, Card::Door]);
    g.deck = vec![Card::Cloak, Card::Evasion, Card::Coin];
    let mut mcts = MCTS::new(Policy::Escape);
    for _ in 0..20 {
        assert_eq!(mcts.playout(&g), 0);
    }
    let d = mcts.statistics(&g).expect("the root is recorded");
    assert!(!d.deterministic_win);
    let visits: u64 = d.actions.iter().map(|a| a.visits).sum();
    assert_eq!(visits, 20);
    assert!(g.actions().contains(&mcts.best_action(&g)));
}

#[test]
fn planner_picks_a_legal_move() {
    let mut g = Game::new();
    g.turn = 7;
    g.mana = 7;
    g.life = 60;
    g.add_cards_to_hand(vec![Card::Coin, Card::Door, Card::Preparation, Card::Foxy]);
    g.deck = vec![Card::Cloak, Card::Evasion, Card::Coin, Card::Shark];
    let action = mcts_action(&g);
    assert!(g.non_kill_actions().contains(&action));
}

#[test]
fn decide_runs_playouts_and_picks_an_exploratory_move() {
    let mut g = Game::new();
    g.turn = 8;
    g.mana = 8;
    g.life = 100;
    g.add_cards_to_hand(vec![Card::Coin, Card::Door, Card::Pillager]);
    g.deck = vec![Card::Cloak, Card::Evasion, Card::Coin];
    let mut mcts = MCTS::new(Policy::Random);
    let action = mcts.decide(&g, 5);
    let d = mcts.statistics(&g).expect("the root is recorded");
    let visits: u64 = d.actions.iter().map(|a| a.visits).sum();
    assert_eq!(visits, 5);
    assert!(g.non_kill_actions().contains(&action));
    assert!(!d.actions.iter().any(|a| a.action == Action::Play(Play { index: 2, target: None })));
}
