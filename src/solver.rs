//! The deterministic win solver: a depth-first search over the plays whose
//! outcome is fixed, memoized by a transposition cache and bounded by a
//! wall-clock deadline.
use vstd::prelude::*;

use std::collections::HashMap;
use std::time::Instant;

use crate::clock::{elapsed, millis, now};
use crate::game::Game;
use crate::hash::state_key;
use crate::rules::{
    fixed_path, fixed_plays_of, has_fixed_win, legal_actions, lemma_fixed_plays,
    lemma_legal_actions, lemma_room_after_play, path_end, reversed, room_everywhere, wins_with,
    Action, GameView, Play, COUNTER_ROOM,
};

verus! {

broadcast use vstd::std_specs::hash::group_hash_axioms;

/// The result of the deterministic search.
#[derive(Debug)]
pub enum Plan {
    /// A winning sequence of plays.
    Win(Vec<Play>),
    /// No sequence of plays of fixed cards wins.
    Lose,
    /// The time ran out before the search was decided.
    Timeout,
}

pub enum PlanView {
    Win(Seq<Play>),
    Lose,
    Timeout,
}

impl View for Plan {
    type V = PlanView;

    open spec fn view(&self) -> PlanView {
        match self {
            Plan::Win(v) => PlanView::Win(v@),
            Plan::Lose => PlanView::Lose,
            Plan::Timeout => PlanView::Timeout,
        }
    }
}

impl Clone for Plan {
    fn clone(&self) -> (r: Plan)
        ensures
            r@ == self@,
    {
        match self {
            Plan::Win(v) => {
                let w = v.clone();
                assert(w@ =~= v@);
                Plan::Win(w)
            },
            Plan::Lose => Plan::Lose,
            Plan::Timeout => Plan::Timeout,
        }
    }
}

/// A plan as cached, last move first, turned into the order to play it.
pub open spec fn reversed_plan(p: PlanView) -> PlanView {
    match p {
        PlanView::Win(s) => PlanView::Win(reversed(s)),
        other => other,
    }
}

/// What a cached plan may say of its state: a win plan, stored last move
/// first, wins; a loss means that no plan wins.
pub open spec fn entry_sound(e: (GameView, PlanView)) -> bool {
    &&& e.0.wf()
    &&& match e.1 {
        PlanView::Win(s) => wins_with(e.0, reversed(s)),
        PlanView::Lose => !has_fixed_win(e.0),
        PlanView::Timeout => false,
    }
}

/// The plan that `m` holds for state `v`, if any.
pub open spec fn cached_plan(m: Map<u64, (GameView, PlanView)>, v: GameView) -> Option<PlanView> {
    if m.contains_key(state_key(v)) && m[state_key(v)].0 == v {
        Some(m[state_key(v)].1)
    } else {
        None
    }
}

/// Two move orders that reach equal states share one cache entry: the
/// states hash equally, and the plan cached when the search reached one of
/// them is the plan found when it reaches the other.
pub proof fn lemma_transposition(m: Map<u64, (GameView, PlanView)>, a: GameView, b: GameView)
    requires
        a == b,
    ensures
        state_key(a) == state_key(b),
        cached_plan(m, a) == cached_plan(m, b),
{
}

/// The transposition cache: from the structural hash of a state to that
/// state and the plan found for it. A plan is reused only for an equal state.
pub struct Transpositions {
    map: HashMap<u64, (Game, Plan)>,
}

impl View for Transpositions {
    type V = Map<u64, (GameView, PlanView)>;

    closed spec fn view(&self) -> Map<u64, (GameView, PlanView)> {
        self.map@.map_values(|e: (Game, Plan)| (e.0@, e.1@))
    }
}

impl Transpositions {
    /// Every entry is keyed by its state's hash and is sound.
    pub open spec fn wf(&self) -> bool {
        forall|k: u64| #[trigger] self@.contains_key(k) ==> k == state_key(self@[k].0) && entry_sound(self@[k])
    }

    pub fn new() -> (r: Transpositions)
        ensures
            r@ == Map::<u64, (GameView, PlanView)>::empty(),
            r.wf(),
    {
        let r = Transpositions { map: HashMap::new() };
        assert(r@ =~= Map::<u64, (GameView, PlanView)>::empty());
        r
    }

    /// The number of cached states.
    pub fn len(&self) -> (r: usize)
        ensures
            r == self@.len(),
    {
        assert(self@.dom() =~= self.map@.dom());
        self.map.len()
    }

    /// The plan cached for a state equal to `g`, if any.
    pub fn lookup(&self, g: &Game) -> (r: Option<Plan>)
        ensures
            r matches Some(p) ==> cached_plan(self@, g@) == Some(p@),
            r is None ==> cached_plan(self@, g@) is None,
    {
        let key = g.hash_value();
        match self.map.get(&key) {
            Some(e) => {
                if e.0 == *g {
                    Some(e.1.clone())
                } else {
                    None
                }
            },
            None => None,
        }
    }

    fn insert(&mut self, g: Game, p: Plan)
        requires
            old(self).wf(),
            entry_sound((g@, p@)),
        ensures
            final(self).wf(),
            final(self)@ == old(self)@.insert(state_key(g@), (g@, p@)),
    {
        let key = g.hash_value();
        let ghost gv = g@;
        let ghost pv = p@;
        self.map.insert(key, (g, p));
        assert(self@ =~= old(self)@.insert(key, (gv, pv)));
    }
}

/// Whether more than `time_limit_ms` milliseconds have passed since `start`.
fn deadline_passed(start: &Instant, time_limit_ms: u64) -> (r: bool)
    ensures
        time_limit_ms == u64::MAX ==> !r,
{
    let spent = elapsed(start);
    let ms = millis(&spent);
    ms > time_limit_ms as u128 && time_limit_ms < u64::MAX
}

/// The plays in reverse order.
fn reverse_plays(plays: Vec<Play>) -> (r: Vec<Play>)
    ensures
        r@ == reversed(plays@),
{
    let ghost orig = plays@;
    let mut plays = plays;
    let mut r: Vec<Play> = Vec::new();
    while plays.len() > 0
        invariant
            reversed(orig) == r@ + reversed(plays@),
        decreases plays@.len(),
    {
        let ghost before = plays@;
        let x = plays.pop().unwrap();
        assert(before.drop_last() =~= plays@);
        r.push(x);
        assert(reversed(before) == seq![x] + reversed(plays@));
        assert(reversed(orig) =~= r@ + reversed(plays@));
    }
    assert(r@ + reversed(plays@) =~= r@);
    r
}

impl Game {
    /// The search from this state. A win plan comes last move first.
    fn find_deterministic_win_helper(&self, start: &Instant, time_limit_ms: u64,
        cache: &mut Transpositions) -> (r: Plan)
        requires
            self@.wf(),
            old(cache).wf(),
        ensures
            final(cache).wf(),
            r@ matches PlanView::Win(s) ==> wins_with(self@, reversed(s)),
            r@ is Lose ==> !has_fixed_win(self@),
            time_limit_ms == u64::MAX && room_everywhere(self@) ==> !(r@ is Timeout),
            self@.is_win() ==> r@ == PlanView::Win(seq![]) && final(cache)@ == old(cache)@,
            (cached_plan(old(cache)@, self@) is Some && !self@.is_win() && !(r@ is Timeout)) ==> Some(r@) == cached_plan(old(cache)@, self@)
                && final(cache)@ == old(cache)@,
        decreases COUNTER_ROOM - self@.storm,
    {
        if self.is_win() {
            let r = Plan::Win(Vec::new());
            assert(reversed(seq![]) =~= Seq::<Play>::empty());
            return r;
        }
        if deadline_passed(start, time_limit_ms) {
            return Plan::Timeout;
        }
        match cache.lookup(self) {
            Some(plan) => {
                assert(entry_sound(cache@[state_key(self@)]));
                return plan;
            },
            None => {},
        }
        if !self.has_room() {
            proof {
                assert(fixed_path(self@, seq![]));
                assert(path_end(self@, seq![]) == self@);
            }
            return Plan::Timeout;
        }
        let plays = self.deterministic_plays();
        proof {
            self.lemma_lengths();
            lemma_legal_actions(self@);
            lemma_fixed_plays(self@, legal_actions(self@));
        }
        let mut i: usize = 0;
        while i < plays.len()
            invariant
                self@.wf(),
                self@.has_room(),
                !self@.is_win(),
                cache.wf(),
                cached_plan(old(cache)@, self@) is None,
                plays@ == fixed_plays_of(self@, legal_actions(self@)),
                forall|j: int| 0 <= j < plays@.len() ==> self@.legal_play(#[trigger] plays@[j])
                    && self@.is_fixed_card(self@.hand[plays@[j].index as int].card),
                i <= plays@.len(),
                forall|j: int| 0 <= j < i ==> !has_fixed_win(self@.play_fixed(#[trigger] plays@[j])),
            decreases plays@.len() - i,
        {
            let play = plays[i];
            assert(self@.legal_play(plays@[i as int]));
            let mut child = self.clone();
            child.play(&play);
            assert(child@.storm == self@.storm + 1);
            proof {
                if room_everywhere(self@) {
                    lemma_room_after_play(self@, play);
                }
            }
            match child.find_deterministic_win_helper(start, time_limit_ms, cache) {
                Plan::Win(tail) => {
                    let ghost t = tail@;
                    let mut tail = tail;
                    tail.push(play);
                    proof {
                        assert(tail@.drop_last() =~= t);
                        assert(reversed(tail@) == seq![play] + reversed(t));
                        assert((seq![play] + reversed(t)).drop_first() =~= reversed(t));
                        assert((seq![play] + reversed(t))[0] == play);
                    }
                    let plan = Plan::Win(tail);
                    cache.insert(self.clone(), plan.clone());
                    return plan;
                },
                Plan::Lose => {},
                Plan::Timeout => {
                    return Plan::Timeout;
                },
            }
            i = i + 1;
        }
        proof {
            if has_fixed_win(self@) {
                let s = choose|s: Seq<Play>| wins_with(self@, s);
                assert(s.len() > 0);
                let p = s[0];
                assert(self@.legal_action(Action::Play(p)));
                assert(legal_actions(self@).contains(Action::Play(p)));
                assert(plays@.contains(p));
                let j = plays@.index_of(p);
                assert(wins_with(self@.play_fixed(plays@[j]), s.drop_first()));
                assert(false);
            }
        }
        cache.insert(self.clone(), Plan::Lose);
        Plan::Lose
    }

    /// Searches for a sequence of plays of fixed cards that wins from this
    /// state, within `time_limit_ms` milliseconds, sharing `cache` with
    /// earlier searches. A win plan comes in the order to play it.
    pub fn find_deterministic_win_with(&self, time_limit_ms: u64, cache: &mut Transpositions) -> (r: Plan)
        requires
            self@.wf(),
            old(cache).wf(),
        ensures
            final(cache).wf(),
            r@ matches PlanView::Win(s) ==> wins_with(self@, s),
            r@ is Lose ==> !has_fixed_win(self@),
            time_limit_ms == u64::MAX && room_everywhere(self@) ==> !(r@ is Timeout),
            self@.is_win() ==> r@ == PlanView::Win(seq![]) && final(cache)@ == old(cache)@,
            (cached_plan(old(cache)@, self@) is Some && !self@.is_win() && !(r@ is Timeout)) ==> r@ == reversed_plan(cached_plan(old(cache)@, self@)->Some_0)
                && final(cache)@ == old(cache)@,
    {
        let start = now();
        match self.find_deterministic_win_helper(&start, time_limit_ms, cache) {
            Plan::Win(plays) => Plan::Win(reverse_plays(plays)),
            other => other,
        }
    }

    /// Searches for a sequence of plays of fixed cards that wins from this
    /// state, within `time_limit_ms` milliseconds. A win plan comes in the
    /// order to play it; `Lose` means that no such sequence exists. Without a
    /// time limit (`u64::MAX`), the search is decided whenever every state it
    /// can reach has room for its counters.
    pub fn find_deterministic_win(&self, time_limit_ms: u64) -> (r: Plan)
        requires
            self@.wf(),
        ensures
            r@ matches PlanView::Win(s) ==> wins_with(self@, s),
            r@ is Lose ==> !has_fixed_win(self@),
            time_limit_ms == u64::MAX && room_everywhere(self@) ==> !(r@ is Timeout),
            self@.is_win() ==> r@ == PlanView::Win(seq![]),
    {
        let mut cache = Transpositions::new();
        self.find_deterministic_win_with(time_limit_ms, &mut cache)
    }
}

} // verus!
