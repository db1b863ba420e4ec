//! The Monte-Carlo planner: PUCT-style playouts over the exploratory moves,
//! with statistics shared by every playout that reaches the same state and
//! the deterministic solver as a short cut to proven wins.
//!
//! Priors are fractions in fixed point with 32 fractional bits; the reward
//! statistics are exact sums; the exploration score is computed in fixed
//! point with 20 fractional bits and an exact integer square root.
use vstd::prelude::*;

use std::collections::HashMap;

use crate::game::Game;
use crate::hash::state_key;
use crate::player::{bot_choice, escape_bot_action};
use crate::random::choose_index;
use crate::rules::{
    keep_non_kill, legal_actions, lemma_keep_non_kill, lemma_legal_actions, Action, GameView,
    COUNTER_ROOM,
};
use crate::solver::Plan;

verus! {

broadcast use vstd::std_specs::hash::group_hash_axioms;

/// The turn at which a playout stops.
pub const MAX_TURNS: i32 = 10;

/// A prior of one, in fixed point.
pub const PRIOR_ONE: u64 = 4294967296;

/// One, in the fixed point of the exploration score.
pub const SCORE_SCALE: u128 = 1048576;

/// Most visits recorded for one state; further playouts leave it unchanged.
pub const VISIT_CAP: u64 = 4294967296;

/// Time given to the deterministic solver at a new state, in milliseconds.
pub const SOLVE_TIME_MS: u64 = 50;

/// Playouts run before choosing a move.
pub const PLAYOUT_BUDGET: usize = 200;

/// The reward of a playout that ends at `turn`: the turns left before the
/// horizon, so that a faster win scores more.
pub open spec fn terminal_reward(turn: int) -> int {
    if turn >= MAX_TURNS { 0 } else { MAX_TURNS - turn }
}

/// Statistics of one candidate move of a state.
#[derive(Copy, Clone, Debug)]
pub struct ActionStats {
    pub action: Action,
    /// The policy's prior, a fraction of `PRIOR_ONE`.
    pub prior: u64,
    /// The sum of the rewards of the playouts through this move.
    pub reward_sum: u64,
    pub visits: u64,
}

pub open spec fn total_visits(s: Seq<ActionStats>) -> int
    decreases s.len(),
{
    if s.len() == 0 { 0 } else { total_visits(s.drop_last()) + s.last().visits }
}

/// The statistics are consistent: rewards are at most 10 a visit, priors at
/// most one, and the visits within the cap.
pub open spec fn stats_ok(s: Seq<ActionStats>) -> bool {
    &&& forall|j: int| 0 <= j < s.len() ==> (#[trigger] s[j]).reward_sum <= 10 * s[j].visits
        && s[j].prior <= PRIOR_ONE
    &&& total_visits(s) <= VISIT_CAP
}

/// `r` is the square root of `x`, rounded down.
pub open spec fn is_root(x: int, r: int) -> bool {
    0 <= r && r * r <= x < (r + 1) * (r + 1)
}

/// The integer square root.
pub open spec fn isqrt(x: int) -> int {
    choose|r: int| #[trigger] is_root(x, r)
}

/// The mean reward in fixed point, rounded down; 0 before any visit.
pub open spec fn mean_fp(a: ActionStats) -> int {
    if a.visits == 0 { 0 } else { a.reward_sum as int * SCORE_SCALE as int / a.visits as int }
}

/// `sqrt(0.01 + total)` in fixed point, rounded down.
pub open spec fn root_fp(total: int) -> int {
    isqrt((1 + 100 * total) * SCORE_SCALE as int * SCORE_SCALE as int / 100)
}

/// The exploration score `mean + sqrt(0.01 + total) * prior / (1 + visits)`
/// in fixed point.
pub open spec fn score_fp(a: ActionStats, total: int) -> int {
    mean_fp(a) + root_fp(total) * a.prior as int / (PRIOR_ONE as int * (1 + a.visits as int))
}

pub open spec fn at_least_one(n: u64) -> int {
    if n == 0 { 1 } else { n as int }
}

/// The mean reward of `a` is at least that of `b`.
pub open spec fn mean_at_least(a: ActionStats, b: ActionStats) -> bool {
    a.reward_sum as int * at_least_one(b.visits) >= b.reward_sum as int * at_least_one(a.visits)
}

pub proof fn lemma_isqrt(x: int, r: int)
    requires
        0 <= r,
        r * r <= x < (r + 1) * (r + 1),
    ensures
        isqrt(x) == r,
{
    assert(is_root(x, r));
    let s = isqrt(x);
    assert(is_root(x, s));
    if s < r {
        assert((s + 1) * (s + 1) <= r * r) by (nonlinear_arith)
            requires
                s + 1 <= r,
                0 <= s,
        ;
    }
    if s > r {
        assert((r + 1) * (r + 1) <= s * s) by (nonlinear_arith)
            requires
                r + 1 <= s,
                0 <= r,
        ;
    }
}

proof fn lemma_total_prefix(s: Seq<ActionStats>, i: int)
    requires
        0 <= i <= s.len(),
    ensures
        total_visits(s.take(i)) <= total_visits(s),
        0 <= total_visits(s.take(i)),
    decreases s.len(),
{
    if s.len() > 0 {
        if i == s.len() {
            assert(s.take(i) =~= s);
            lemma_total_prefix(s.drop_last(), s.len() - 1);
            assert(s.drop_last().take(s.len() - 1) =~= s.drop_last());
        } else {
            lemma_total_prefix(s.drop_last(), i);
            assert(s.drop_last().take(i) =~= s.take(i));
        }
    }
}

proof fn lemma_total_update(s: Seq<ActionStats>, i: int, x: ActionStats)
    requires
        0 <= i < s.len(),
    ensures
        total_visits(s.update(i, x)) == total_visits(s) - s[i].visits + x.visits,
    decreases s.len(),
{
    if i < s.len() - 1 {
        lemma_total_update(s.drop_last(), i, x);
        assert(s.update(i, x).drop_last() =~= s.drop_last().update(i, x));
    } else {
        assert(s.update(i, x).drop_last() =~= s.drop_last());
    }
}

/// The integer square root, by bisection.
fn integer_sqrt(x: u128) -> (r: u128)
    ensures
        r == isqrt(x as int),
        is_root(x as int, r as int),
{
    let mut lo: u128 = 0;
    let mut hi: u128 = 0x1_0000_0000_0000_0000;
    assert(x < 0x1_0000_0000_0000_0000u128 as int * 0x1_0000_0000_0000_0000u128 as int);
    while hi - lo > 1
        invariant
            lo < hi <= 0x1_0000_0000_0000_0000u128,
            lo * lo <= x,
            x < hi as int * hi as int,
        decreases hi - lo,
    {
        let mid = lo + (hi - lo) / 2;
        assert(mid * mid <= 0xffff_ffff_ffff_ffffu128 * 0xffff_ffff_ffff_ffffu128) by (nonlinear_arith)
            requires
                mid < 0x1_0000_0000_0000_0000u128,
        ;
        if mid * mid <= x {
            lo = mid;
        } else {
            hi = mid;
        }
    }
    proof {
        lemma_isqrt(x as int, lo as int);
    }
    lo
}

/// What a state's statistics record.
pub struct StateData {
    /// Whether a deterministic win was proven from the state.
    pub deterministic_win: bool,
    /// One entry per exploratory move, in the order of `non_kill_actions`.
    pub actions: Vec<ActionStats>,
}

impl Clone for StateData {
    fn clone(&self) -> (r: StateData)
        ensures
            r.deterministic_win == self.deterministic_win,
            r.actions@ == self.actions@,
    {
        let actions = self.actions.clone();
        assert(actions@ =~= self.actions@);
        StateData { deterministic_win: self.deterministic_win, actions }
    }
}

/// How the planner weighs the candidate moves before any playout.
#[derive(Copy, Clone, Debug, PartialEq, Eq, Structural)]
pub enum Policy {
    /// The same weight for every move.
    Random,
    /// Most of the weight on the rule-based bot's move.
    Escape,
}

/// Equal priors for `n` moves.
pub open spec fn uniform_priors(n: nat) -> Seq<u64> {
    Seq::new(n, |j: int| (PRIOR_ONE as int / n as int) as u64)
}

/// The first position at or after `k` of move `a`, or -1.
pub open spec fn position_of(s: Seq<Action>, a: Action, k: int) -> int
    decreases s.len() - k,
{
    if k < 0 || k >= s.len() {
        -1
    } else if s[k] == a {
        k
    } else {
        position_of(s, a, k + 1)
    }
}

/// Three fifths of the weight on the first copy of move `b`, the rest shared
/// by the other moves; equal priors if `b` is not among the moves.
pub open spec fn mirror_priors(s: Seq<Action>, b: Action) -> Seq<u64> {
    let i = position_of(s, b, 0);
    if i < 0 {
        uniform_priors(s.len())
    } else {
        Seq::new(s.len(), |j: int| if j == i {
            (PRIOR_ONE as int * 3 / 5) as u64
        } else {
            (PRIOR_ONE as int * 2 / (5 * (s.len() - 1))) as u64
        })
    }
}

/// Equal priors for every move.
pub fn random_policy(game: &Game, actions: &Vec<Action>) -> (r: Vec<u64>)
    ensures
        r@ == uniform_priors(actions@.len()),
{
    let n = actions.len();
    let mut r: Vec<u64> = Vec::new();
    let mut i: usize = 0;
    while i < n
        invariant
            n == actions@.len(),
            i <= n,
            r@ =~= Seq::new(i as nat, |j: int| (PRIOR_ONE as int / n as int) as u64),
        decreases n - i,
    {
        r.push(PRIOR_ONE / n as u64);
        i = i + 1;
        assert(r@ =~= Seq::new(i as nat, |j: int| (PRIOR_ONE as int / n as int) as u64));
    }
    r
}

/// Priors that mirror the rule-based bot: three fifths on its move, the rest
/// shared by the others.
pub fn escape_policy(game: &Game, actions: &Vec<Action>) -> (r: Vec<u64>)
    requires
        game@.wf(),
    ensures
        r@.len() == actions@.len(),
        forall|j: int| 0 <= j < r@.len() ==> r@[j] <= PRIOR_ONE,
        game@.fish.len() == 0 ==> r@ == mirror_priors(actions@, bot_choice(game@)),
        exists|b: Action| #[trigger] game@.legal_action(b) && r@ == mirror_priors(actions@, b),
{
    let action = escape_bot_action(game);
    let n = actions.len();
    let mut i: usize = 0;
    while i < n && actions[i] != action
        invariant
            n == actions@.len(),
            i <= n,
            position_of(actions@, action, 0) == position_of(actions@, action, i as int),
        decreases n - i,
    {
        i = i + 1;
    }
    if i == n {
        let r = random_policy(game, actions);
        assert forall|j: int| 0 <= j < r@.len() implies r@[j] <= PRIOR_ONE by {
            assert(r@[j] == (PRIOR_ONE as int / n as int) as u64);
        }
        assert(game@.legal_action(action) && r@ == mirror_priors(actions@, action));
        return r;
    }
    let mut r: Vec<u64> = Vec::new();
    let mut j: usize = 0;
    while j < n
        invariant
            n == actions@.len(),
            i < n,
            j <= n,
            r@ =~= Seq::new(j as nat, |k: int| if k == i {
                (PRIOR_ONE as int * 3 / 5) as u64
            } else {
                (PRIOR_ONE as int * 2 / (5 * (n - 1))) as u64
            }),
        decreases n - j,
    {
        if j == i {
            r.push(PRIOR_ONE / 5 * 3);
        } else {
            r.push((PRIOR_ONE as u128 * 2 / (5 * (n as u128 - 1))) as u64);
        }
        j = j + 1;
        assert(r@ =~= Seq::new(j as nat, |k: int| if k == i {
            (PRIOR_ONE as int * 3 / 5) as u64
        } else {
            (PRIOR_ONE as int * 2 / (5 * (n - 1))) as u64
        }));
    }
    assert forall|k: int| 0 <= k < r@.len() implies r@[k] <= PRIOR_ONE by {
        if k != i {
            vstd::arithmetic::div_mod::lemma_div_is_ordered_by_denominator(PRIOR_ONE as int * 2, 5, 5 * (n - 1));
        }
    }
    assert(game@.legal_action(action) && r@ == mirror_priors(actions@, action));
    r
}

/// A source of priors for the planner: for the candidate moves of a state,
/// one prior per move, each a fraction of `PRIOR_ONE`.
pub trait PriorPolicy: Sized {
    /// `pr` are priors that this policy may give to the moves `acts` of `v`.
    spec fn gives(&self, v: GameView, acts: Seq<Action>, pr: Seq<u64>) -> bool;

    /// The priors of the moves, one per move, each at most one.
    fn priors(&self, game: &Game, actions: &Vec<Action>) -> (r: Vec<u64>)
        requires
            game@.wf(),
        ensures
            r@.len() == actions@.len(),
            forall|j: int| 0 <= j < r@.len() ==> r@[j] <= PRIOR_ONE,
            self.gives(game@, actions@, r@),
    ;
}

impl PriorPolicy for Policy {
    /// Equal priors; or three fifths on the bot's move (a legal move picked
    /// at random while a choice is pending).
    open spec fn gives(&self, v: GameView, acts: Seq<Action>, pr: Seq<u64>) -> bool {
        match *self {
            Policy::Random => pr == uniform_priors(acts.len()),
            Policy::Escape => if v.fish.len() == 0 {
                pr == mirror_priors(acts, bot_choice(v))
            } else {
                exists|b: Action| #[trigger] v.legal_action(b) && pr == mirror_priors(acts, b)
            },
        }
    }

    fn priors(&self, game: &Game, actions: &Vec<Action>) -> (r: Vec<u64>) {
        match self {
            Policy::Random => {
                let r = random_policy(game, actions);
                assert forall|j: int| 0 <= j < r@.len() implies r@[j] <= PRIOR_ONE by {
                    assert(r@[j] == (PRIOR_ONE as int / actions@.len() as int) as u64);
                }
                r
            },
            Policy::Escape => escape_policy(game, actions),
        }
    }
}

/// The last position holding the largest score.
pub open spec fn is_explore_choice(s: Seq<ActionStats>, i: int) -> bool {
    &&& 0 <= i < s.len()
    &&& forall|j: int| 0 <= j < s.len() ==> score_fp(s[i], total_visits(s)) >= score_fp(#[trigger] s[j], total_visits(s))
    &&& forall|j: int| i < j < s.len() ==> score_fp(s[i], total_visits(s)) > score_fp(#[trigger] s[j], total_visits(s))
}

/// The last position holding the largest mean reward.
pub open spec fn is_best_choice(s: Seq<ActionStats>, i: int) -> bool {
    &&& 0 <= i < s.len()
    &&& forall|j: int| 0 <= j < s.len() ==> mean_at_least(s[i], #[trigger] s[j])
    &&& forall|j: int| i < j < s.len() ==> !mean_at_least(#[trigger] s[j], s[i])
}

/// The statistics after one more playout through move `i` with `reward`.
pub open spec fn recorded(s: Seq<ActionStats>, i: int, reward: int) -> Seq<ActionStats> {
    s.update(i, ActionStats {
        reward_sum: (s[i].reward_sum + reward) as u64,
        visits: (s[i].visits + 1) as u64,
        ..s[i]
    })
}

/// The exploration score of `a` given the root term.
fn score(a: &ActionStats, root: u128) -> (r: u128)
    requires
        a.visits <= VISIT_CAP,
        a.reward_sum <= 10 * a.visits,
        a.prior <= PRIOR_ONE,
        root <= 0x20_0000_0000u128,
    ensures
        r == mean_fp(*a) + root * a.prior as int / (PRIOR_ONE as int * (1 + a.visits as int)),
{
    let mean: u128 = if a.visits == 0 {
        0
    } else {
        assert(a.reward_sum as u128 * SCORE_SCALE <= 10 * 0x1_0000_0000u128 * 1048576) by (nonlinear_arith)
            requires
                a.reward_sum <= 10 * a.visits,
                a.visits <= 0x1_0000_0000u64,
        ;
        (a.reward_sum as u128 * SCORE_SCALE) / a.visits as u128
    };
    assert(mean <= 10 * 0x1_0000_0000u128 * 1048576) by {
        if a.visits > 0 {
            vstd::arithmetic::div_mod::lemma_div_is_ordered_by_denominator(a.reward_sum as int * SCORE_SCALE as int, 1, a.visits as int);
        }
    }
    assert(root * a.prior as u128 <= 0x20_0000_0000u128 * 0x1_0000_0000u128) by (nonlinear_arith)
        requires
            root <= 0x20_0000_0000u128,
            a.prior <= 0x1_0000_0000u64,
    ;
    let den: u128 = PRIOR_ONE as u128 * (1 + a.visits as u128);
    let bonus: u128 = (root * a.prior as u128) / den;
    assert(bonus <= root * a.prior as u128) by {
        vstd::arithmetic::div_mod::lemma_div_is_ordered_by_denominator(root as int * a.prior as int, 1, den as int);
    }
    mean + bonus
}

impl StateData {
    /// Fresh statistics for a state: its exploratory moves with their priors.
    pub fn new<P: PriorPolicy>(game: &Game, policy: &P) -> (r: StateData)
        requires
            game@.wf(),
        ensures
            !r.deterministic_win,
            r.actions@.len() == keep_non_kill(game@, legal_actions(game@)).len(),
            r.actions@.len() > 0,
            forall|j: int| 0 <= j < r.actions@.len() ==> (#[trigger] r.actions@[j]).action
                == keep_non_kill(game@, legal_actions(game@))[j] && r.actions@[j].reward_sum == 0
                && r.actions@[j].visits == 0,
            forall|j: int| 0 <= j < r.actions@.len() ==> game@.legal_action((#[trigger] r.actions@[j]).action),
            stats_ok(r.actions@),
            fresh_stats_for(game@, *policy, r.actions@),
            forall|j: int| 0 <= j < r.actions@.len() ==> keep_non_kill(game@, legal_actions(game@)).contains(
                (#[trigger] r.actions@[j]).action),
    {
        let actions = game.non_kill_actions();
        let priors = policy.priors(game, &actions);
        proof {
            game.lemma_lengths();
            lemma_legal_actions(game@);
            lemma_keep_non_kill(game@, legal_actions(game@));
            if game@.fish.len() > 0 {
                assert(legal_actions(game@)[0] == Action::Choose(0));
            }
        }
        let mut stats: Vec<ActionStats> = Vec::new();
        let mut i: usize = 0;
        while i < actions.len()
            invariant
                actions@ == keep_non_kill(game@, legal_actions(game@)),
                priors@.len() == actions@.len(),
                forall|j: int| 0 <= j < priors@.len() ==> priors@[j] <= PRIOR_ONE,
                i <= actions@.len(),
                stats@.len() == i,
                forall|j: int| 0 <= j < i ==> (#[trigger] stats@[j]).action == actions@[j]
                    && stats@[j].reward_sum == 0 && stats@[j].visits == 0 && stats@[j].prior == priors@[j],
                total_visits(stats@) == 0,
            decreases actions@.len() - i,
        {
            let ghost before = stats@;
            stats.push(ActionStats { action: actions[i], prior: priors[i], reward_sum: 0, visits: 0 });
            assert(stats@.drop_last() =~= before);
            i = i + 1;
        }
        proof {
            assert forall|j: int| 0 <= j < stats@.len() implies game@.legal_action((#[trigger] stats@[j]).action) by {
                let a = actions@[j];
                assert(legal_actions(game@).contains(a));
                let k = legal_actions(game@).index_of(a);
                assert(game@.legal_action(legal_actions(game@)[k]));
            }
        }
        proof {
            assert(stats@.map_values(|a: ActionStats| a.prior) =~= priors@);
            assert forall|j: int| 0 <= j < stats@.len() implies keep_non_kill(game@, legal_actions(game@)).contains(
                (#[trigger] stats@[j]).action) by {
                assert(actions@[j] == stats@[j].action);
            }
        }
        StateData { deterministic_win: false, actions: stats }
    }

    /// The record of a state from which a deterministic win was proven.
    pub fn new_win() -> (r: StateData)
        ensures
            r.deterministic_win,
            r.actions@.len() == 0,
    {
        StateData { deterministic_win: true, actions: Vec::new() }
    }

    /// The number of playouts recorded.
    fn total(&self) -> (r: u64)
        requires
            stats_ok(self.actions@),
        ensures
            r == total_visits(self.actions@),
    {
        let mut sum: u64 = 0;
        let mut i: usize = 0;
        while i < self.actions.len()
            invariant
                stats_ok(self.actions@),
                i <= self.actions@.len(),
                sum == total_visits(self.actions@.take(i as int)),
            decreases self.actions@.len() - i,
        {
            proof {
                assert(self.actions@.take(i as int + 1).drop_last() =~= self.actions@.take(i as int));
                lemma_total_prefix(self.actions@, i as int + 1);
            }
            sum = sum + self.actions[i].visits;
            i = i + 1;
        }
        assert(self.actions@.take(i as int) =~= self.actions@);
        sum
    }

    /// The move to explore: the last one with the largest exploration score.
    pub fn explore_index(&self) -> (r: usize)
        requires
            self.actions@.len() > 0,
            stats_ok(self.actions@),
        ensures
            is_explore_choice(self.actions@, r as int),
    {
        let total = self.total();
        let x: u128 = (1 + 100 * total as u128) * SCORE_SCALE * SCORE_SCALE / 100;
        let root = integer_sqrt(x);
        proof {
            assert(x <= (1 + 100 * 0x1_0000_0000u128) * 1048576 * 1048576);
            assert(root <= 0x20_0000_0000u128) by {
                assert(is_root(x as int, root as int));
                if root > 0x20_0000_0000u128 {
                    assert(root as int * root as int > 0x20_0000_0000int * 0x20_0000_0000int) by (nonlinear_arith)
                        requires
                            root > 0x20_0000_0000u128,
                    ;
                }
            }
            assert(root == root_fp(total as int));
        }
        let ghost t = total_visits(self.actions@);
        proof {
            assert forall|j: int| 0 <= j < self.actions@.len() implies (#[trigger] self.actions@[j]).visits <= VISIT_CAP by {
                lemma_total_prefix(self.actions@, j + 1);
                assert(self.actions@.take(j + 1).drop_last() =~= self.actions@.take(j));
                lemma_total_prefix(self.actions@, j);
            }
        }
        let mut best: usize = 0;
        let mut best_score = score(&self.actions[0], root);
        let mut j: usize = 1;
        while j < self.actions.len()
            invariant
                stats_ok(self.actions@),
                forall|k: int| 0 <= k < self.actions@.len() ==> (#[trigger] self.actions@[k]).visits <= VISIT_CAP,
                root == root_fp(t),
                root <= 0x20_0000_0000u128,
                t == total_visits(self.actions@),
                1 <= j <= self.actions@.len(),
                best < j,
                best_score == score_fp(self.actions@[best as int], t),
                forall|k: int| 0 <= k < j ==> best_score >= score_fp(#[trigger] self.actions@[k], t),
                forall|k: int| best < k < j ==> best_score > score_fp(#[trigger] self.actions@[k], t),
            decreases self.actions@.len() - j,
        {
            let sc = score(&self.actions[j], root);
            if sc >= best_score {
                best = j;
                best_score = sc;
            }
            j = j + 1;
        }
        best
    }

    /// Records one more playout through move `index` with `reward`; once the
    /// state holds `VISIT_CAP` visits, nothing changes.
    pub fn update(&mut self, index: usize, reward: u64)
        requires
            index < old(self).actions@.len(),
            reward <= 10,
            stats_ok(old(self).actions@),
        ensures
            stats_ok(final(self).actions@),
            final(self).deterministic_win == old(self).deterministic_win,
            total_visits(old(self).actions@) < VISIT_CAP ==> final(self).actions@ == recorded(
                old(self).actions@, index as int, reward as int),
            total_visits(old(self).actions@) >= VISIT_CAP ==> final(self).actions@ == old(self).actions@,
    {
        let total = self.total();
        if total < VISIT_CAP {
            let ghost s = self.actions@;
            let mut a = self.actions[index];
            proof {
                lemma_total_prefix(s, index as int + 1);
                assert(s.take(index as int + 1).drop_last() =~= s.take(index as int));
                lemma_total_prefix(s, index as int);
            }
            a.reward_sum = a.reward_sum + reward;
            a.visits = a.visits + 1;
            self.actions.set(index, a);
            proof {
                lemma_total_update(s, index as int, a);
                assert(self.actions@ =~= recorded(s, index as int, reward as int));
                assert forall|j: int| 0 <= j < self.actions@.len() implies (#[trigger] self.actions@[j]).reward_sum
                    <= 10 * self.actions@[j].visits && self.actions@[j].prior <= PRIOR_ONE by {
                    if j != index {
                        assert(self.actions@[j] == s[j]);
                    }
                }
            }
        }
    }

    /// The move with the largest mean reward, the last of equals.
    pub fn best_index(&self) -> (r: usize)
        requires
            self.actions@.len() > 0,
            stats_ok(self.actions@),
        ensures
            is_best_choice(self.actions@, r as int),
    {
        proof {
            assert forall|j: int| 0 <= j < self.actions@.len() implies (#[trigger] self.actions@[j]).visits <= VISIT_CAP by {
                lemma_total_prefix(self.actions@, j + 1);
                assert(self.actions@.take(j + 1).drop_last() =~= self.actions@.take(j));
                lemma_total_prefix(self.actions@, j);
            }
        }
        let mut best: usize = 0;
        let mut j: usize = 1;
        while j < self.actions.len()
            invariant
                stats_ok(self.actions@),
                forall|k: int| 0 <= k < self.actions@.len() ==> (#[trigger] self.actions@[k]).visits <= VISIT_CAP,
                1 <= j <= self.actions@.len(),
                best < j,
                forall|k: int| 0 <= k < j ==> mean_at_least(self.actions@[best as int], #[trigger] self.actions@[k]),
                forall|k: int| best < k < j ==> !mean_at_least(#[trigger] self.actions@[k], self.actions@[best as int]),
            decreases self.actions@.len() - j,
        {
            let a = self.actions[j];
            let b = self.actions[best];
            let av: u128 = if a.visits == 0 { 1 } else { a.visits as u128 };
            let bv: u128 = if b.visits == 0 { 1 } else { b.visits as u128 };
            assert(a.reward_sum as u128 * bv <= 10 * 0x1_0000_0000u128 * 0x1_0000_0000u128) by (nonlinear_arith)
                requires
                    a.reward_sum <= 10 * a.visits,
                    a.visits <= 0x1_0000_0000u64,
                    bv <= 0x1_0000_0000u128,
            ;
            assert(b.reward_sum as u128 * av <= 10 * 0x1_0000_0000u128 * 0x1_0000_0000u128) by (nonlinear_arith)
                requires
                    b.reward_sum <= 10 * b.visits,
                    b.visits <= 0x1_0000_0000u64,
                    av <= 0x1_0000_0000u128,
            ;
            if a.reward_sum as u128 * bv >= b.reward_sum as u128 * av {
                proof {
                    assert forall|k: int| 0 <= k < j + 1 implies mean_at_least(a, #[trigger] self.actions@[k]) by {
                        if k < j {
                            let c = self.actions@[k];
                            assert(mean_at_least(b, c));
                            assert(mean_at_least(a, c)) by (nonlinear_arith)
                                requires
                                    mean_at_least(a, b),
                                    mean_at_least(b, c),
                                    at_least_one(a.visits) >= 1,
                                    at_least_one(b.visits) >= 1,
                                    at_least_one(c.visits) >= 1,
                                    a.reward_sum >= 0,
                                    b.reward_sum >= 0,
                                    c.reward_sum >= 0,
                            ;
                        }
                    }
                }
                best = j;
            } else {
                proof {
                    assert(!mean_at_least(a, b));
                }
            }
            j = j + 1;
        }
        best
    }

    /// The move with the largest mean reward, ignoring the exploration term.
    pub fn best_action(&self) -> (r: Action)
        requires
            self.actions@.len() > 0,
            stats_ok(self.actions@),
        ensures
            exists|i: int| is_best_choice(self.actions@, i) && r == self.actions@[i].action,
    {
        let i = self.best_index();
        self.actions[i].action
    }
}

/// What the planner may hold for a state: consistent statistics of legal
/// moves, and at least one move unless a win was proven.
pub open spec fn data_ok(v: GameView, won: bool, s: Seq<ActionStats>) -> bool {
    &&& stats_ok(s)
    &&& forall|j: int| 0 <= j < s.len() ==> v.legal_action((#[trigger] s[j]).action)
        && keep_non_kill(v, legal_actions(v)).contains(s[j].action)
    &&& !won ==> s.len() > 0
}

/// `s` is what a state's statistics start as: one entry per exploratory
/// move, in order, with the policy's priors and no visits.
pub open spec fn fresh_stats_for<P: PriorPolicy>(v: GameView, policy: P, s: Seq<ActionStats>) -> bool {
    let acts = keep_non_kill(v, legal_actions(v));
    &&& s.len() == acts.len()
    &&& forall|j: int| 0 <= j < s.len() ==> (#[trigger] s[j]).action == acts[j] && s[j].reward_sum == 0
        && s[j].visits == 0
    &&& policy.gives(v, acts, s.map_values(|a: ActionStats| a.prior))
}

/// `after` records one playout, with `reward`, through the move that the
/// exploration score picks in the fresh statistics of `v`.
pub open spec fn recorded_from_fresh<P: PriorPolicy>(v: GameView, policy: P, after: Option<(bool, Seq<ActionStats>)>,
    reward: int) -> bool {
    exists|s: Seq<ActionStats>| #[trigger] fresh_stats_for(v, policy, s) && playout_recorded(s, after, reward)
}

/// The hash slot of `v` holds another state, so `v` gets no statistics.
pub open spec fn slot_taken(m: Map<u64, (GameView, (bool, Seq<ActionStats>))>, v: GameView) -> bool {
    m.contains_key(state_key(v)) && m[state_key(v)].0 != v
}

/// `m` records at least one playout through `v`.
pub open spec fn visited(m: Map<u64, (GameView, (bool, Seq<ActionStats>))>, v: GameView) -> bool {
    total_visits(stats_of(m, v)) > 0
}

/// A recorded playout leaves statistics with at least one visit.
pub proof fn lemma_recorded_visited(s: Seq<ActionStats>, after: Option<(bool, Seq<ActionStats>)>, reward: int)
    requires
        playout_recorded(s, after, reward),
        stats_ok(s),
    ensures
        after matches Some(d) && !d.0 && total_visits(d.1) > 0,
{
    let i = choose|i: int| #[trigger] is_explore_choice(s, i) && after == Some((false, next_stats(s, i, reward)));
    if total_visits(s) < VISIT_CAP {
        lemma_total_prefix(s, i + 1);
        assert(s.take(i + 1).drop_last() =~= s.take(i));
        lemma_total_prefix(s, i);
        lemma_total_update(s, i, ActionStats {
            reward_sum: (s[i].reward_sum + reward) as u64,
            visits: (s[i].visits + 1) as u64,
            ..s[i]
        });
    }
}

/// The statistics recorded for state `v`, if any.
pub open spec fn entry_of(m: Map<u64, (GameView, (bool, Seq<ActionStats>))>, v: GameView) -> Option<(bool, Seq<ActionStats>)> {
    if m.contains_key(state_key(v)) && m[state_key(v)].0 == v {
        Some(m[state_key(v)].1)
    } else {
        None
    }
}

/// The move statistics recorded for state `v`; none if it has no entry.
pub open spec fn stats_of(m: Map<u64, (GameView, (bool, Seq<ActionStats>))>, v: GameView) -> Seq<ActionStats> {
    match entry_of(m, v) {
        Some(d) => d.1,
        None => seq![],
    }
}

/// `m` holds statistics for `v` and does not mark it as a proven win.
pub open spec fn visited_unwon(m: Map<u64, (GameView, (bool, Seq<ActionStats>))>, v: GameView) -> bool {
    entry_of(m, v) matches Some(d) && !d.0
}

/// `m` marks `v` as a proven win.
pub open spec fn marked_won(m: Map<u64, (GameView, (bool, Seq<ActionStats>))>, v: GameView) -> bool {
    entry_of(m, v) matches Some(d) && d.0
}

/// `v` is `g` or comes after it in the order in which a game moves on:
/// later turn, more cards played, fewer cards in deck and hand, fewer
/// offered cards.
pub open spec fn at_or_after(v: GameView, g: GameView) -> bool {
    ||| v.turn > g.turn
    ||| v.turn == g.turn && v.storm > g.storm
    ||| v.turn == g.turn && v.storm == g.storm && v.deck.len() + v.hand.len() < g.deck.len() + g.hand.len()
    ||| v.turn == g.turn && v.storm == g.storm && v.deck.len() + v.hand.len() == g.deck.len() + g.hand.len()
        && v.fish.len() <= g.fish.len()
}

/// The statistics after a playout through move `i` with `reward`: recorded
/// while the state is under the visit cap, unchanged after.
pub open spec fn next_stats(s: Seq<ActionStats>, i: int, reward: int) -> Seq<ActionStats> {
    if total_visits(s) < VISIT_CAP { recorded(s, i, reward) } else { s }
}

/// `after` records one more playout, with `reward`, through the move that
/// the exploration score picks in `before`.
pub open spec fn playout_recorded(before: Seq<ActionStats>, after: Option<(bool, Seq<ActionStats>)>, reward: int) -> bool {
    exists|i: int| #[trigger] is_explore_choice(before, i) && after == Some((false, next_stats(before, i, reward)))
}

/// The Monte-Carlo planner: statistics per state, shared by all playouts.
pub struct MCTS<P: PriorPolicy> {
    state_map: HashMap<u64, (Game, StateData)>,
    policy: P,
}

impl<P: PriorPolicy> View for MCTS<P> {
    type V = Map<u64, (GameView, (bool, Seq<ActionStats>))>;

    closed spec fn view(&self) -> Map<u64, (GameView, (bool, Seq<ActionStats>))> {
        self.state_map@.map_values(|e: (Game, StateData)| (e.0@, (e.1.deterministic_win, e.1.actions@)))
    }
}

/// The reward of a playout that stops at `game`.
fn reward(game: &Game) -> (r: u64)
    requires
        game@.turn >= 0,
    ensures
        r == terminal_reward(game@.turn),
        r <= 10,
{
    let turn = game.current_turn();
    if turn >= MAX_TURNS {
        0
    } else {
        (MAX_TURNS - turn) as u64
    }
}

impl<P: PriorPolicy> MCTS<P> {
    /// Every entry is keyed by its state's hash and holds sound statistics.
    pub open spec fn wf(&self) -> bool {
        forall|k: u64| #[trigger] self@.contains_key(k) ==> k == state_key(self@[k].0) && self@[k].0.wf()
            && data_ok(self@[k].0, self@[k].1.0, self@[k].1.1)
    }

    pub closed spec fn policy_of(&self) -> P {
        self.policy
    }

    pub fn new(policy: P) -> (r: MCTS<P>)
        ensures
            r@ == Map::<u64, (GameView, (bool, Seq<ActionStats>))>::empty(),
            r.wf(),
            r.policy_of() == policy,
    {
        let r = MCTS { state_map: HashMap::new(), policy };
        assert(r@ =~= Map::<u64, (GameView, (bool, Seq<ActionStats>))>::empty());
        r
    }

    /// The statistics recorded for a state equal to `game`.
    pub fn statistics(&self, game: &Game) -> (r: Option<StateData>)
        requires
            self.wf(),
        ensures
            r matches Some(d) ==> entry_of(self@, game@) == Some((d.deterministic_win, d.actions@))
                && data_ok(game@, d.deterministic_win, d.actions@),
            r is None ==> entry_of(self@, game@) is None,
    {
        let key = game.hash_value();
        match self.state_map.get(&key) {
            Some(e) => {
                if e.0 == *game {
                    Some(e.1.clone())
                } else {
                    None
                }
            },
            None => None,
        }
    }

    /// Records `data` for `game`, unless its key holds another state or a
    /// proven win.
    fn store(&mut self, game: Game, data: StateData)
        requires
            old(self).wf(),
            game@.wf(),
            data_ok(game@, data.deterministic_win, data.actions@),
        ensures
            final(self).wf(),
            final(self).policy_of() == old(self).policy_of(),
            ({
                let k = state_key(game@);
                let free = !old(self)@.contains_key(k) || (old(self)@[k].0 == game@ && !old(self)@[k].1.0);
                &&& free ==> final(self)@ == old(self)@.insert(k, (game@, (data.deterministic_win, data.actions@)))
                &&& !free ==> final(self)@ == old(self)@
            }),
            forall|v: GameView| v != game@ ==> #[trigger] entry_of(final(self)@, v) == entry_of(old(self)@, v),
    {
        let key = game.hash_value();
        let free = match self.state_map.get(&key) {
            Some(e) => e.0 == game && !e.1.deterministic_win,
            None => true,
        };
        if free {
            let ghost gv = game@;
            let ghost dv = (data.deterministic_win, data.actions@);
            self.state_map.insert(key, (game, data));
            assert(self@ =~= old(self)@.insert(key, (gv, dv)));
            assert forall|v: GameView| v != gv implies #[trigger] entry_of(self@, v) == entry_of(old(self)@, v) by {
                if state_key(v) == key {
                    assert(self@[key].0 == gv);
                }
            }
        }
    }

    /// One playout from `game`, which updates the statistics of every state
    /// it passes and returns the reward it reached. A state marked as a proven
    /// win returns its reward at once and changes nothing; marks are never
    /// undone.
    pub fn playout(&mut self, game: &Game) -> (r: u64)
        requires
            old(self).wf(),
            game@.wf(),
        ensures
            final(self).wf(),
            final(self).policy_of() == old(self).policy_of(),
            r <= 10,
            game@.turn >= MAX_TURNS ==> r == 0 && final(self)@ == old(self)@,
            marked_won(old(self)@, game@) ==> r == terminal_reward(game@.turn) && final(self)@ == old(self)@,
            forall|v: GameView| #[trigger] marked_won(old(self)@, v) ==> entry_of(final(self)@, v) == entry_of(old(self)@, v),
            forall|v: GameView| !at_or_after(v, game@) ==> #[trigger] entry_of(final(self)@, v) == entry_of(old(self)@, v),
            (visited_unwon(old(self)@, game@) && game@.turn < MAX_TURNS && game@.has_room())
                ==> playout_recorded(stats_of(old(self)@, game@), entry_of(final(self)@, game@), r as int),
            marked_won(final(self)@, game@) ==> r == terminal_reward(game@.turn),
            (entry_of(old(self)@, game@) is None && game@.turn < MAX_TURNS && game@.has_room())
                ==> marked_won(final(self)@, game@) || slot_taken(final(self)@, game@)
                || recorded_from_fresh(game@, old(self).policy_of(), entry_of(final(self)@, game@), r as int),
            (game@.turn < MAX_TURNS && game@.has_room()) ==> marked_won(final(self)@, game@)
                || visited(final(self)@, game@) || slot_taken(final(self)@, game@),
        decreases MAX_TURNS - game@.turn, COUNTER_ROOM - game@.storm, game@.deck.len() + game@.hand.len(),
            game@.fish.len(), 1nat,
    {
        if game.current_turn() >= MAX_TURNS || !game.has_room() {
            return reward(game);
        }
        let known = self.statistics(game);
        match &known {
            Some(d) => {
                if d.deterministic_win {
                    return reward(game);
                }
            },
            None => {
                if game.turn_is_fresh() && self.mark_if_won(game) {
                    return reward(game);
                }
            },
        }
        let data = match known {
            Some(d) => d,
            None => StateData::new(game, &self.policy),
        };
        let ghost s0 = data.actions@;
        let ghost before = self@;
        let r = self.explore(game, data);
        proof {
            if playout_recorded(s0, entry_of(self@, game@), r as int) {
                lemma_recorded_visited(s0, entry_of(self@, game@), r as int);
                if entry_of(before, game@) is None {
                    assert(fresh_stats_for(game@, self.policy, s0));
                }
            }
        }
        r
    }

    /// At a state without statistics, runs the deterministic solver; if it
    /// proves a win, marks the state as won. Returns whether it did.
    fn mark_if_won(&mut self, game: &Game) -> (r: bool)
        requires
            old(self).wf(),
            game@.wf(),
            entry_of(old(self)@, game@) is None,
        ensures
            final(self).wf(),
            final(self).policy_of() == old(self).policy_of(),
            !r ==> final(self)@ == old(self)@,
            r ==> marked_won(final(self)@, game@) || slot_taken(final(self)@, game@),
            forall|v: GameView| v != game@ ==> #[trigger] entry_of(final(self)@, v) == entry_of(old(self)@, v),
    {
        match game.find_deterministic_win(SOLVE_TIME_MS) {
            Plan::Win(_) => {
                self.store(game.clone(), StateData::new_win());
                true
            },
            _ => false,
        }
    }

    /// Plays the move that `data` selects at `game`, continues the playout
    /// from the state it leads to, and records the reward in `data` for
    /// `game`.
    fn explore(&mut self, game: &Game, data: StateData) -> (r: u64)
        requires
            old(self).wf(),
            game@.wf(),
            game@.turn < MAX_TURNS,
            game@.has_room(),
            !data.deterministic_win,
            data_ok(game@, data.deterministic_win, data.actions@),
            !marked_won(old(self)@, game@),
        ensures
            final(self).wf(),
            final(self).policy_of() == old(self).policy_of(),
            r <= 10,
            forall|v: GameView| #[trigger] marked_won(old(self)@, v) ==> entry_of(final(self)@, v) == entry_of(old(self)@, v),
            forall|v: GameView| !at_or_after(v, game@) ==> #[trigger] entry_of(final(self)@, v) == entry_of(old(self)@, v),
            entry_of(old(self)@, game@) is Some ==> playout_recorded(data.actions@, entry_of(final(self)@, game@),
                r as int),
            playout_recorded(data.actions@, entry_of(final(self)@, game@), r as int) || slot_taken(final(self)@, game@),
            !marked_won(final(self)@, game@),
        decreases MAX_TURNS - game@.turn, COUNTER_ROOM - game@.storm, game@.deck.len() + game@.hand.len(),
            game@.fish.len(), 0nat,
    {
        let mut data = data;
        let i = data.explore_index();
        let mut child = game.clone();
        child.take_action(&data.actions[i].action);
        let ghost before = self@;
        let ghost chosen = data.actions@;
        let answer = self.playout(&child);
        let ghost middle = self@;
        proof {
            assert(!at_or_after(game@, child@));
            assert(entry_of(middle, game@) == entry_of(before, game@));
        }
        data.update(i, answer);
        self.store(game.clone(), data);
        proof {
            assert forall|v: GameView| #[trigger] marked_won(before, v) implies
                entry_of(self@, v) == entry_of(before, v) by {
                assert(marked_won(middle, v));
                if state_key(v) == state_key(game@) {
                    assert(middle[state_key(v)].0 == v);
                }
            }
            assert forall|v: GameView| !at_or_after(v, game@) implies
                #[trigger] entry_of(self@, v) == entry_of(before, v) by {
                assert(!at_or_after(v, child@));
                assert(entry_of(middle, v) == entry_of(before, v));
            }
            assert(is_explore_choice(chosen, i as int));
            if !slot_taken(self@, game@) {
                assert(entry_of(self@, game@) == Some((false, next_stats(chosen, i as int, answer as int))));
            }
            if entry_of(before, game@) is Some {
                assert(entry_of(self@, game@) == Some((false, next_stats(chosen, i as int, answer as int))));
            }
        }
        answer
    }


    /// The move with the best mean reward at `game`; the first exploratory
    /// move when the state has no move statistics.
    pub fn best_action(&self, game: &Game) -> (r: Action)
        requires
            self.wf(),
            game@.wf(),
        ensures
            game@.legal_action(r),
            keep_non_kill(game@, legal_actions(game@)).contains(r),
            stats_of(self@, game@).len() > 0 ==> exists|i: int|
                is_best_choice(stats_of(self@, game@), i) && r == stats_of(self@, game@)[i].action,
            stats_of(self@, game@).len() == 0 ==> r == keep_non_kill(game@, legal_actions(game@))[0],
    {
        match self.statistics(game) {
            Some(d) => {
                if d.actions.len() > 0 {
                    let i = d.best_index();
                    return d.actions[i].action;
                }
            },
            None => {},
        }
        let actions = game.non_kill_actions();
        proof {
            game.lemma_lengths();
            lemma_legal_actions(game@);
            lemma_keep_non_kill(game@, legal_actions(game@));
            if game@.fish.len() > 0 {
                assert(legal_actions(game@)[0] == Action::Choose(0));
            }
            assert(legal_actions(game@).contains(actions@[0]));
            let k = legal_actions(game@).index_of(actions@[0]);
            assert(game@.legal_action(legal_actions(game@)[k]));
        }
        actions[0]
    }
}

/// A random exploratory move.
pub fn random_action(game: &Game) -> (r: Action)
    requires
        game@.wf(),
    ensures
        keep_non_kill(game@, legal_actions(game@)).contains(r),
        game@.legal_action(r),
{
    let actions = game.non_kill_actions();
    proof {
        game.lemma_lengths();
        lemma_legal_actions(game@);
        lemma_keep_non_kill(game@, legal_actions(game@));
        if game@.fish.len() > 0 {
            assert(legal_actions(game@)[0] == Action::Choose(0));
        }
    }
    let mut indices: Vec<usize> = Vec::new();
    let mut i: usize = 0;
    while i < actions.len()
        invariant
            i <= actions@.len(),
            indices@ =~= Seq::new(i as nat, |k: int| k as usize),
        decreases actions@.len() - i,
    {
        indices.push(i);
        i = i + 1;
        assert(indices@ =~= Seq::new(i as nat, |k: int| k as usize));
    }
    let x = match choose_index(&indices) {
        Some(x) => x,
        None => 0,
    };
    let ghost k = indices@.index_of(x);
    assert(indices@[k] == x);
    let r = actions[x];
    proof {
        assert(actions@.contains(r));
        let j = legal_actions(game@).index_of(r);
        assert(game@.legal_action(legal_actions(game@)[j]));
    }
    r
}

impl<P: PriorPolicy> MCTS<P> {
    /// Runs `playouts` playouts from `game`, then returns the move with the
    /// best mean reward at `game`, or its first exploratory move when it has
    /// no move statistics.
    pub fn decide(&mut self, game: &Game, playouts: usize) -> (r: Action)
        requires
            old(self).wf(),
            game@.wf(),
        ensures
            final(self).wf(),
            final(self).policy_of() == old(self).policy_of(),
            game@.legal_action(r),
            keep_non_kill(game@, legal_actions(game@)).contains(r),
            stats_of(final(self)@, game@).len() > 0 ==> exists|i: int|
                is_best_choice(stats_of(final(self)@, game@), i) && r == stats_of(final(self)@, game@)[i].action,
            stats_of(final(self)@, game@).len() == 0 ==> r == keep_non_kill(game@, legal_actions(game@))[0],
            (playouts > 0 && game@.turn < MAX_TURNS && game@.has_room()) ==> marked_won(final(self)@, game@)
                || visited(final(self)@, game@) || slot_taken(final(self)@, game@),
    {
        let mut n: usize = 0;
        while n < playouts
            invariant
                self.wf(),
                self.policy_of() == old(self).policy_of(),
                game@.wf(),
                n <= playouts,
                (n > 0 && game@.turn < MAX_TURNS && game@.has_room()) ==> marked_won(self@, game@)
                    || visited(self@, game@) || slot_taken(self@, game@),
            decreases playouts - n,
        {
            self.playout(game);
            n = n + 1;
        }
        self.best_action(game)
    }
}

/// The planner's move: `PLAYOUT_BUDGET` playouts guided by the bot's
/// priors, then the move with the best mean reward; always one of the
/// exploratory moves.
pub fn mcts_action(game: &Game) -> (r: Action)
    requires
        game@.wf(),
    ensures
        game@.legal_action(r),
        keep_non_kill(game@, legal_actions(game@)).contains(r),
{
    let mut mcts = MCTS::new(Policy::Escape);
    mcts.decide(game, PLAYOUT_BUDGET)
}

} // verus!
