//! Properties of the rules that hold of every state and every sequence of
//! moves.
use vstd::prelude::*;

use crate::card::instance_cost;
use crate::rules::{
    has_fixed_win, legal_actions, lemma_legal_actions, wins_with, Action, GameView, Play,
    BOARD_LIMIT, HAND_LIMIT,
};

verus! {

/// In a well-formed state the hand holds at most ten cards, the board at
/// most seven minions, and every card's cost, with or without the turn's
/// discounts, is at least zero. Every transition keeps the state well formed.
pub proof fn lemma_bounded_state(v: GameView)
    requires
        v.wf(),
    ensures
        v.hand.len() <= HAND_LIMIT,
        v.board.len() <= BOARD_LIMIT,
        forall|i: int| 0 <= i < v.hand.len() ==> 0 <= #[trigger] v.cost_at(i) <= instance_cost(v.hand[i]),
        forall|i: int| 0 <= i < v.hand.len() ==> 0 <= instance_cost(#[trigger] v.hand[i]),
{
}

/// Ending the turn is a legal move, and is listed, exactly when no choice is
/// pending.
pub proof fn lemma_end_turn_needs_no_choice(v: GameView)
    requires
        v.hand.len() <= usize::MAX,
        v.board.len() <= usize::MAX,
        v.fish.len() <= usize::MAX,
    ensures
        v.legal_action(Action::EndTurn) <==> v.fish.len() == 0,
        legal_actions(v).contains(Action::EndTurn) <==> v.fish.len() == 0,
{
    lemma_legal_actions(v);
    if legal_actions(v).contains(Action::EndTurn) {
        let k = legal_actions(v).index_of(Action::EndTurn);
        assert(v.legal_action(legal_actions(v)[k]));
    }
}

/// The state with the opponent's life set to `life`.
pub open spec fn with_life(v: GameView, life: int) -> GameView {
    GameView { life, ..v }
}

/// The opponent's life does not change what a play of a fixed card does to
/// the rest of the state, and lowers it by the same amount.
pub proof fn lemma_play_shifts_life(v: GameView, p: Play, life: int)
    requires
        v.legal_play(p),
        v.is_fixed_card(v.hand[p.index as int].card),
    ensures
        with_life(v, life).play_fixed(p) == with_life(v.play_fixed(p), v.play_fixed(p).life + (life - v.life)),
{
    let u = with_life(v, life);
    assert(u.before_effect(p) =~= with_life(v.before_effect(p), v.before_effect(p).life + (life - v.life)));
    assert(u.play_fixed(p) =~= with_life(v.play_fixed(p), v.play_fixed(p).life + (life - v.life)));
}

/// If plays of fixed cards win against one more life, some such plays win
/// against this life.
pub proof fn lemma_lower_life_still_wins(v: GameView, s: Seq<Play>)
    requires
        wins_with(with_life(v, v.life + 1), s),
    ensures
        has_fixed_win(v),
    decreases s.len(),
{
    if v.is_win() {
        assert(wins_with(v, seq![]));
    } else {
        let u = with_life(v, v.life + 1);
        let p = s[0];
        lemma_play_shifts_life(v, p, v.life + 1);
        let w = v.play_fixed(p);
        assert(with_life(w, w.life + 1) == u.play_fixed(p));
        lemma_lower_life_still_wins(w, s.drop_first());
        let t = choose|t: Seq<Play>| wins_with(w, t);
        let r = seq![p] + t;
        assert(r[0] == p);
        assert(r.drop_first() =~= t);
        assert(wins_with(v, r));
    }
}

/// Winning is monotone in the opponent's life: whatever wins against
/// `life + 1` can be turned into a win against `life`.
pub proof fn lemma_win_monotone_in_life(v: GameView)
    requires
        has_fixed_win(with_life(v, v.life + 1)),
    ensures
        has_fixed_win(v),
{
    let u = with_life(v, v.life + 1);
    let s = choose|s: Seq<Play>| wins_with(u, s);
    lemma_lower_life_still_wins(v, s);
}

/// If no plays of fixed cards win against one more life, none win against
/// any higher life: the life just below is the largest that can be won.
pub proof fn lemma_no_win_above(v: GameView, life: int)
    requires
        !has_fixed_win(with_life(v, v.life + 1)),
        life > v.life,
    ensures
        !has_fixed_win(with_life(v, life)),
    decreases life - v.life,
{
    if life > v.life + 1 {
        lemma_no_win_above(v, life - 1);
        if has_fixed_win(with_life(v, life)) {
            let u = with_life(v, life - 1);
            assert(with_life(u, u.life + 1) == with_life(v, life));
            lemma_win_monotone_in_life(u);
        }
    }
}

} // verus!
