//! A rule-based bot that plays by shallow, hand-written heuristics; the
//! planner uses its choice as a prior.
use vstd::prelude::*;

use crate::card::{Card, CardInstance};
use crate::game::Game;
use crate::random::choose_index;
use crate::rules::{
    keep_non_kill, legal_actions, lemma_keep_non_kill, lemma_legal_actions, lemma_plays_of, plays_of,
    Action, GameView, Play,
};

verus! {

/// Cards worth playing once a combo is live.
pub open spec fn useful_with_combo(c: Card) -> bool {
    c == Card::Swindle || c == Card::GoneFishin
}

/// Cards worth playing at any time; a coin only when it is borrowed.
pub open spec fn useful_anytime(ci: CardInstance) -> bool {
    match ci.card {
        Card::BoneSpike | Card::Cloak | Card::Cutlass | Card::Door | Card::Evasion | Card::Extortion
        | Card::Preparation | Card::SecretPassage | Card::Shroud => true,
        Card::Coin => ci.passage,
        _ => false,
    }
}

pub open spec fn is_useful(v: GameView, p: Play, combo: bool) -> bool {
    if combo {
        useful_with_combo(v.hand[p.index as int].card)
    } else {
        useful_anytime(v.hand[p.index as int])
    }
}

/// The first play at or after `k` that is useful, if any.
pub open spec fn first_useful(v: GameView, s: Seq<Play>, combo: bool, k: int) -> Option<Play>
    decreases s.len() - k,
{
    if k < 0 || k >= s.len() {
        None
    } else if is_useful(v, s[k], combo) {
        Some(s[k])
    } else {
        first_useful(v, s, combo, k + 1)
    }
}

/// The bot's move when no choice is pending: a useful combo card if a combo
/// is live, else a useful card, else ending the turn.
pub open spec fn bot_choice(v: GameView) -> Action {
    let plays = plays_of(legal_actions(v));
    let combo = if v.storm > 0 { first_useful(v, plays, true, 0) } else { None };
    match combo {
        Some(p) => Action::Play(p),
        None => match first_useful(v, plays, false, 0) {
            Some(p) => Action::Play(p),
            None => Action::EndTurn,
        },
    }
}

/// The first useful play of `plays`, if any.
fn find_useful(game: &Game, plays: &Vec<Play>, combo: bool) -> (r: Option<Play>)
    requires
        forall|j: int| 0 <= j < plays@.len() ==> (#[trigger] plays@[j]).index < game@.hand.len(),
    ensures
        r == first_useful(game@, plays@, combo, 0),
{
    let mut k: usize = 0;
    while k < plays.len()
        invariant
            forall|j: int| 0 <= j < plays@.len() ==> (#[trigger] plays@[j]).index < game@.hand.len(),
            k <= plays@.len(),
            first_useful(game@, plays@, combo, 0) == first_useful(game@, plays@, combo, k as int),
        decreases plays@.len() - k,
    {
        let play = plays[k];
        let ci = game.hand_instance(play.index);
        let useful = if combo {
            match ci.card {
                Card::Swindle => true,
                Card::GoneFishin => true,
                _ => false,
            }
        } else {
            match ci.card {
                Card::BoneSpike => true,
                Card::Cloak => true,
                Card::Coin => ci.passage,
                Card::Cutlass => true,
                Card::Door => true,
                Card::Evasion => true,
                Card::Extortion => true,
                Card::Preparation => true,
                Card::SecretPassage => true,
                Card::Shroud => true,
                _ => false,
            }
        };
        if useful {
            return Some(play);
        }
        k = k + 1;
    }
    None
}

/// The rule-based bot's move: a random pick while a choice is pending, else
/// the move `bot_choice` describes. The move is always legal.
pub fn escape_bot_action(game: &Game) -> (r: Action)
    requires
        game@.wf(),
    ensures
        game@.legal_action(r),
        game@.fish.len() > 0 ==> keep_non_kill(game@, legal_actions(game@)).contains(r),
        game@.fish.len() == 0 ==> r == bot_choice(game@),
{
    proof {
        game.lemma_lengths();
        lemma_legal_actions(game@);
        lemma_keep_non_kill(game@, legal_actions(game@));
    }
    if game.fish_len() > 0 {
        let actions = game.non_kill_actions();
        assert(legal_actions(game@)[0] == Action::Choose(0));
        let mut indices: Vec<usize> = Vec::new();
        let mut i: usize = 0;
        while i < actions.len()
            invariant
                i <= actions@.len(),
                indices@ =~= Seq::new(i as nat, |k: int| k as usize),
            decreases actions@.len() - i,
        {
            indices.push(i);
            i = i + 1;
            assert(indices@ =~= Seq::new(i as nat, |k: int| k as usize));
        }
        let x = match choose_index(&indices) {
            Some(x) => x,
            None => 0,
        };
        assert(indices@.len() > 0);
        let ghost k = indices@.index_of(x);
        assert(indices@[k] == x);
        let r = actions[x];
        proof {
            assert(keep_non_kill(game@, legal_actions(game@)).contains(r));
            let j = legal_actions(game@).index_of(r);
            assert(game@.legal_action(legal_actions(game@)[j]));
        }
        return r;
    }
    let plays = game.plays();
    proof {
        lemma_plays_of(game@, legal_actions(game@));
    }
    let combo = if game.can_combo() { find_useful(game, &plays, true) } else { None };
    match combo {
        Some(p) => {
            proof {
                crate::player::lemma_first_useful_in(game@, plays@, true, 0);
            }
            Action::Play(p)
        },
        None => {
            match find_useful(game, &plays, false) {
                Some(p) => {
                    proof {
                        crate::player::lemma_first_useful_in(game@, plays@, false, 0);
                    }
                    Action::Play(p)
                },
                None => Action::EndTurn,
            }
        },
    }
}

/// A useful play found is one of the plays searched.
pub proof fn lemma_first_useful_in(v: GameView, s: Seq<Play>, combo: bool, k: int)
    requires
        0 <= k,
    ensures
        first_useful(v, s, combo, k) matches Some(p) ==> s.contains(p),
    decreases s.len() - k,
{
    if k < s.len() && !is_useful(v, s[k], combo) {
        lemma_first_useful_in(v, s, combo, k + 1);
    }
}

} // verus!
