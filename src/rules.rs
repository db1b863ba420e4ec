//! The mathematical model of a game state and of every transition.
//!
//! A state is a `GameView`; each spec function below says what one step of
//! the rules does to it. The executable engine in `game` is proved against
//! these definitions.
use vstd::prelude::*;

use crate::card::{
    fresh, instance_cost, is_combo, is_minion, is_spell, is_trade_card, needs_target, Card,
    CardInstance,
};

verus! {

/// Most cards a hand holds; further cards are discarded.
pub const HAND_LIMIT: usize = 10;

/// Most minions the board holds.
pub const BOARD_LIMIT: usize = 7;

/// Bound on the turn counters under which one more step cannot overflow.
pub const COUNTER_ROOM: i32 = 1000000;

/// Bound on how far below zero the opponent's life may go.
pub const LIFE_ROOM: i32 = 1000000000;

/// The model of a game state.
#[verifier::ext_equal]
pub struct GameView {
    pub board: Seq<Card>,
    pub hand: Seq<CardInstance>,
    pub passage: Seq<CardInstance>,
    pub life: int,
    pub mana: int,
    pub storm: int,
    pub foxy: int,
    pub scabbs: int,
    pub next_scabbs: int,
    pub deck: Seq<Card>,
    pub turn: int,
    pub prep_pending: bool,
    pub fish: Seq<Card>,
}

/// How to play a card: which card of the hand, onto which minion.
#[derive(Copy, Clone, Debug, PartialEq, Eq, Hash, Structural)]
pub struct Play {
    pub index: usize,
    pub target: Option<usize>,
}

/// A move: play a card, pick one of the offered cards, or end the turn.
#[derive(Copy, Clone, Debug, PartialEq, Eq, Hash, Structural)]
pub enum Action {
    Play(Play),
    Choose(usize),
    EndTurn,
}

/// Which deck cards a draw may take.
#[derive(Copy, Clone, Debug, PartialEq, Eq, Structural)]
pub enum DrawFilter {
    Any,
    Minion,
    Spell,
    Exactly(Card),
}

pub open spec fn accepts(f: DrawFilter, c: Card) -> bool {
    match f {
        DrawFilter::Any => true,
        DrawFilter::Minion => is_minion(c),
        DrawFilter::Spell => is_spell(c),
        DrawFilter::Exactly(d) => c == d,
    }
}

/// `cis` appended to `hand` until the hand is full; the rest is discarded.
pub open spec fn capped_append(hand: Seq<CardInstance>, cis: Seq<CardInstance>) -> Seq<CardInstance> {
    if hand.len() >= HAND_LIMIT {
        hand
    } else if cis.len() <= HAND_LIMIT - hand.len() {
        hand + cis
    } else {
        hand + cis.take(HAND_LIMIT - hand.len())
    }
}

pub open spec fn potion_copy(c: Card) -> CardInstance {
    CardInstance { potion: true, ..fresh(c) }
}

pub open spec fn bounced_copy(c: Card) -> CardInstance {
    CardInstance { tenwu: true, ..fresh(c) }
}

pub open spec fn returned_copy(c: Card) -> CardInstance {
    CardInstance { cost_reduction: 2, ..fresh(c) }
}

/// Lowest cost reduction an instance may carry: above it every cost fits in
/// an `i32`, whatever the instance's tags.
pub const REDUCTION_FLOOR: i32 = -2000000000;

/// Every instance's cost reduction is above the floor.
pub open spec fn costs_fit(s: Seq<CardInstance>) -> bool {
    forall|i: int| 0 <= i < s.len() ==> (#[trigger] s[i]).cost_reduction >= REDUCTION_FLOOR
}

/// Above the floor, an instance's cost fits in an `i32`.
pub proof fn lemma_floor_cost(ci: CardInstance)
    requires
        ci.cost_reduction >= REDUCTION_FLOOR,
    ensures
        0 <= instance_cost(ci) <= i32::MAX,
{
}

pub proof fn lemma_costs_fit_append(a: Seq<CardInstance>, b: Seq<CardInstance>)
    requires
        costs_fit(a),
        costs_fit(b),
    ensures
        costs_fit(capped_append(a, b)),
        costs_fit(a + b),
{
    assert forall|i: int| 0 <= i < capped_append(a, b).len() implies
        (#[trigger] capped_append(a, b)[i]).cost_reduction >= REDUCTION_FLOOR by {
        if i >= a.len() {
            assert(capped_append(a, b)[i] == b[i - a.len()]);
        }
    }
    assert forall|i: int| 0 <= i < (a + b).len() implies
        (#[trigger] (a + b)[i]).cost_reduction >= REDUCTION_FLOOR by {
        if i >= a.len() {
            assert((a + b)[i] == b[i - a.len()]);
        }
    }
}

/// Adding cards never lets a hand within the limit grow past it.
pub proof fn lemma_capped_len(h: Seq<CardInstance>, c: Seq<CardInstance>)
    ensures
        h.len() <= HAND_LIMIT ==> capped_append(h, c).len() <= HAND_LIMIT,
        capped_append(h, c).len() >= h.len(),
{
}

pub proof fn lemma_capped_grows_by_at_most(h: Seq<CardInstance>, c: Seq<CardInstance>)
    ensures
        capped_append(h, c).len() <= h.len() + c.len(),
{
}

pub proof fn lemma_costs_fit_remove(a: Seq<CardInstance>, i: int)
    requires
        costs_fit(a),
        0 <= i < a.len(),
    ensures
        costs_fit(a.remove(i)),
{
    assert forall|j: int| 0 <= j < a.remove(i).len() implies
        (#[trigger] a.remove(i)[j]).cost_reduction >= REDUCTION_FLOOR by {
        if j >= i {
            assert(a.remove(i)[j] == a[j + 1]);
        }
    }
}

/// A fresh instance of any card has a small cost.
pub proof fn lemma_fresh_costs_fit(c: Card)
    ensures
        costs_fit(seq![fresh(c)]),
        costs_fit(seq![CardInstance { tenwu: true, ..fresh(c) }]),
        costs_fit(seq![CardInstance { cost_reduction: 2, ..fresh(c) }]),
{
    assert(seq![fresh(c)][0] == fresh(c));
    assert(seq![CardInstance { tenwu: true, ..fresh(c) }][0] == CardInstance { tenwu: true, ..fresh(c) });
    assert(seq![CardInstance { cost_reduction: 2, ..fresh(c) }][0] == CardInstance { cost_reduction: 2, ..fresh(c) });
}

/// How many minions the cards hold.
pub open spec fn count_minions(s: Seq<Card>) -> nat
    decreases s.len(),
{
    if s.len() == 0 {
        0
    } else {
        count_minions(s.drop_last()) + if is_minion(s.last()) { 1nat } else { 0nat }
    }
}

/// The first position at or after `k` that holds a card accepted by `f`, or -1.
pub open spec fn first_match_from(s: Seq<Card>, f: DrawFilter, k: int) -> int
    decreases s.len() - k,
{
    if k < 0 || k >= s.len() {
        -1
    } else if accepts(f, s[k]) {
        k
    } else {
        first_match_from(s, f, k + 1)
    }
}

/// The first position at or after `k` of an instance of card `c`, or -1.
pub open spec fn hand_position(h: Seq<CardInstance>, c: Card, k: int) -> int
    decreases h.len() - k,
{
    if k < 0 || k >= h.len() {
        -1
    } else if h[k].card == c {
        k
    } else {
        hand_position(h, c, k + 1)
    }
}

impl GameView {
    /// The play of the first copy of `card` in hand onto the first minion
    /// `target` of the board.
    pub open spec fn card_play(self, card: Card, target: Option<Card>) -> Play {
        Play {
            index: hand_position(self.hand, card, 0) as usize,
            target: match target {
                Some(t) => Some(first_match_from(self.board, DrawFilter::Exactly(t), 0) as usize),
                None => None,
            },
        }
    }

    /// `w` comes after this state in a game: the next turn; or the same turn
    /// with one more card played; or as many played with fewer cards in deck and
    /// hand; or as many cards with a pending offer settled.
    pub open spec fn makes_progress(self, w: GameView) -> bool {
        ||| w.turn == self.turn + 1
        ||| w.turn == self.turn && w.storm == self.storm + 1
        ||| w.turn == self.turn && w.storm == self.storm
            && w.deck.len() + w.hand.len() < self.deck.len() + self.hand.len()
        ||| w.turn == self.turn && w.storm == self.storm
            && w.deck.len() + w.hand.len() == self.deck.len() + self.hand.len()
            && w.fish.len() < self.fish.len()
    }

    /// What every state of the engine satisfies.
    pub open spec fn wf(self) -> bool {
        &&& self.hand.len() <= HAND_LIMIT
        &&& self.board.len() <= BOARD_LIMIT
        &&& self.mana >= 0
        &&& self.turn >= 0
        &&& self.storm >= 0
        &&& self.foxy >= 0
        &&& self.scabbs >= 0
        &&& self.next_scabbs >= 0
        &&& costs_fit(self.hand)
        &&& costs_fit(self.passage)
    }

    /// The counters are far enough from the limits of `i32` for one more step.
    pub open spec fn has_room(self) -> bool {
        &&& self.storm < COUNTER_ROOM
        &&& self.foxy < COUNTER_ROOM
        &&& self.scabbs < COUNTER_ROOM
        &&& self.next_scabbs < COUNTER_ROOM
        &&& self.mana < COUNTER_ROOM
        &&& self.turn < COUNTER_ROOM
        &&& self.life > -LIFE_ROOM
        &&& self.life <= i32::MAX
    }

    /// `w` differs from this state in its hand and deck at most.
    pub open spec fn same_but_cards(self, w: GameView) -> bool {
        w == GameView { hand: w.hand, deck: w.deck, ..self }
    }

    pub open spec fn is_win(self) -> bool {
        self.life <= 0
    }

    pub open spec fn with_hand(self, hand: Seq<CardInstance>) -> GameView {
        GameView { hand, ..self }
    }

    pub open spec fn add_instances(self, cis: Seq<CardInstance>) -> GameView {
        self.with_hand(capped_append(self.hand, cis))
    }

    /// The cost of the card at `i` in hand, with the discounts of the turn.
    pub open spec fn cost_at(self, i: int) -> int {
        let ci = self.hand[i];
        let c = instance_cost(ci) - 3 * self.scabbs
            - (if is_combo(ci.card) { 2 * self.foxy } else { 0 })
            - (if is_spell(ci.card) && self.prep_pending { 2int } else { 0int });
        if c < 0 { 0 } else { c }
    }

    pub open spec fn can_play_at(self, i: int) -> bool {
        &&& !(self.board.len() >= BOARD_LIMIT && is_minion(self.hand[i].card))
        &&& self.mana >= self.cost_at(i)
    }

    /// `p` is one of the moves that the rules allow now.
    pub open spec fn legal_play(self, p: Play) -> bool {
        &&& self.fish.len() == 0
        &&& p.index < self.hand.len()
        &&& self.can_play_at(p.index as int)
        &&& if needs_target(self.hand[p.index as int].card) {
            p.target matches Some(t) && t < self.board.len()
        } else {
            p.target is None
        }
    }

    pub open spec fn legal_action(self, a: Action) -> bool {
        match a {
            Action::Play(p) => self.legal_play(p),
            Action::Choose(i) => i < self.fish.len(),
            Action::EndTurn => self.fish.len() == 0,
        }
    }

    /// The deck card at `i` moved into the hand.
    pub open spec fn take_card(self, i: int) -> GameView {
        GameView { deck: self.deck.remove(i), ..self }.add_instances(seq![fresh(self.deck[i])])
    }

    /// `w` is a possible result of drawing one card accepted by `f`: any such
    /// card, or no change when the deck holds none.
    pub open spec fn drew(self, w: GameView, f: DrawFilter) -> bool {
        ||| (forall|i: int| 0 <= i < self.deck.len() ==> !accepts(f, #[trigger] self.deck[i])) && w == self
        ||| exists|i: int| 0 <= i < self.deck.len() && accepts(f, self.deck[i]) && w == #[trigger] self.take_card(i)
    }

    /// `w` is a possible result of `n` draws in a row.
    pub open spec fn drew_n(self, w: GameView, f: DrawFilter, n: nat) -> bool
        decreases n,
    {
        if n == 0 {
            w == self
        } else {
            exists|m: GameView| #[trigger] self.drew(m, f) && m.drew_n(w, f, (n - 1) as nat)
        }
    }

    /// The first accepted card of the deck moved into the hand.
    pub open spec fn draw_first(self, f: DrawFilter) -> GameView {
        let k = first_match_from(self.deck, f, 0);
        if k < 0 { self } else { self.take_card(k) }
    }

    /// Paying for the card at `p.index`: mana spent, card out of hand, and
    /// the waiting scabbs stacks rolled over.
    pub open spec fn pay(self, p: Play) -> GameView {
        GameView {
            mana: self.mana - self.cost_at(p.index as int),
            hand: self.hand.remove(p.index as int),
            scabbs: self.next_scabbs,
            next_scabbs: 0,
            ..self
        }
    }

    /// The bounce effect: the target minion goes back to hand, tagged.
    pub open spec fn bounce(self, t: int) -> GameView {
        let m = self.add_instances(seq![bounced_copy(self.board[t])]);
        GameView { board: m.board.remove(t), ..m }
    }

    /// A minion enters the board; a spell uses up the pending discount.
    pub open spec fn place(self, c: Card) -> GameView {
        if is_minion(c) {
            GameView { board: self.board.push(c), ..self }
        } else if is_spell(c) {
            GameView { prep_pending: false, ..self }
        } else {
            self
        }
    }

    /// The battlecry or combo effect of a card.
    pub open spec fn battlecry(self, c: Card) -> GameView {
        match c {
            Card::Dancer => self.add_instances(seq![fresh(Card::Coin)]),
            Card::Foxy => GameView { foxy: self.foxy + 1, ..self },
            Card::Pillager => GameView { life: self.life - self.storm, ..self },
            Card::Scabbs => if self.storm > 0 {
                GameView { scabbs: self.scabbs + 1, next_scabbs: self.next_scabbs + 1, ..self }
            } else {
                self
            },
            _ => self,
        }
    }

    /// Everything a play does before the card's own special effect.
    pub open spec fn before_effect(self, p: Play) -> GameView {
        let c = self.hand[p.index as int].card;
        let a = self.pay(p);
        let b = if c == Card::Tenwu { a.bounce(p.target->0 as int) } else { a };
        let d = b.place(c);
        let e = if is_combo(c) { GameView { foxy: 0, ..d } } else { d };
        let f = e.battlecry(c);
        if f.board.contains(Card::Shark) { f.battlecry(c) } else { f }
    }

    /// The special effect of a card whose outcome is fixed.
    pub open spec fn fixed_effect(self, c: Card, target: Option<usize>) -> GameView {
        match c {
            Card::Coin => GameView { mana: self.mana + 1, ..self },
            Card::Potion => self.add_instances(self.board.map_values(|b: Card| potion_copy(b))),
            Card::Preparation => GameView { prep_pending: true, ..self },
            Card::Shadowstep => {
                let t = target->0 as int;
                let m = GameView { board: self.board.remove(t), ..self };
                m.add_instances(seq![returned_copy(self.board[t])])
            },
            Card::Shroud => self.draw_first(DrawFilter::Minion).draw_first(DrawFilter::Minion),
            _ => self,
        }
    }

    /// The card at `i` in hand made one cheaper.
    pub open spec fn discount_at(self, i: int) -> GameView {
        self.with_hand(self.hand.update(i, CardInstance {
            cost_reduction: (self.hand[i].cost_reduction + 1) as i32, ..self.hand[i] }))
    }

    /// `w` results from the weapon's effect: one card drawn, then one spell of
    /// the hand that still costs something made one cheaper.
    pub open spec fn cutlass_outcome(self, w: GameView) -> bool {
        exists|m: GameView| #[trigger] self.drew(m, DrawFilter::Any) && {
            ||| (forall|i: int| 0 <= i < m.hand.len() ==> !(is_spell(#[trigger] m.hand[i].card)
                && instance_cost(m.hand[i]) > 0)) && w == m
            ||| exists|i: int| 0 <= i < m.hand.len() && is_spell(m.hand[i].card)
                && instance_cost(m.hand[i]) > 0
                && w == #[trigger] m.discount_at(i)
        }
    }

    /// `w` results from the hand-swap effect: the hand is set aside, four
    /// cards are drawn, and they are tagged as borrowed.
    pub open spec fn passage_outcome(self, w: GameView) -> bool {
        let s = GameView { passage: self.passage + self.hand, hand: seq![], ..self };
        exists|m: GameView| #[trigger] s.drew_n(m, DrawFilter::Any, 4) && w == m.with_hand(
            m.hand.map_values(|ci: CardInstance| CardInstance { passage: true, ..ci }))
    }

    /// `w` is a possible result of the special effect of `c`.
    pub open spec fn effect_outcome(self, c: Card, target: Option<usize>, w: GameView) -> bool {
        match c {
            Card::Shroud => if count_minions(self.deck) <= 2 {
                w == self.fixed_effect(c, target)
            } else {
                self.drew_n(w, DrawFilter::Minion, 2)
            },
            Card::Swindle => if self.storm > 0 {
                exists|m: GameView| #[trigger] self.drew(m, DrawFilter::Spell) && m.drew(w, DrawFilter::Minion)
            } else {
                self.drew(w, DrawFilter::Spell)
            },
            Card::Door => self.drew(w, DrawFilter::Spell),
            Card::Extortion => self.drew(w, DrawFilter::Any),
            Card::Cutlass => self.cutlass_outcome(w),
            Card::GoneFishin => w == GameView { fish: w.fish, ..self } && if self.deck.len() <= 3 {
                w.fish == self.deck
            } else {
                w.fish.len() == 3 && forall|j: int| 0 <= j < 3 ==> self.deck.contains(#[trigger] w.fish[j])
            },
            Card::SecretPassage => self.passage_outcome(w),
            _ => w == self.fixed_effect(c, target),
        }
    }

    /// The storm count after playing `c`.
    pub open spec fn storm_after(self, c: Card) -> int {
        if is_trade_card(c) { self.storm } else { self.storm + 1 }
    }

    /// `w` is a possible result of playing `p`.
    pub open spec fn play_outcome(self, p: Play, w: GameView) -> bool {
        let c = self.hand[p.index as int].card;
        let m = self.before_effect(p);
        &&& m.effect_outcome(c, p.target, GameView { storm: m.storm, ..w })
        &&& w.storm == m.storm_after(c)
    }

    /// A card whose play has one possible result in this state.
    pub open spec fn is_fixed_card(self, c: Card) -> bool {
        match c {
            Card::GoneFishin | Card::SecretPassage | Card::Swindle | Card::Door
            | Card::Cutlass | Card::Extortion => false,
            Card::Shroud => count_minions(self.deck) <= 2,
            _ => true,
        }
    }

    /// The one result of a play of a fixed card.
    pub open spec fn play_fixed(self, p: Play) -> GameView {
        let c = self.hand[p.index as int].card;
        let m = self.before_effect(p);
        GameView { storm: m.storm_after(c), ..m.fixed_effect(c, p.target) }
    }

    /// Choosing the offered card at `i`: it is drawn from the deck and the
    /// offer is withdrawn.
    pub open spec fn choose_outcome(self, i: int, w: GameView) -> bool {
        exists|m: GameView| #[trigger] self.drew(m, DrawFilter::Exactly(self.fish[i]))
            && w == GameView { fish: seq![], ..m }
    }

    /// The cards kept at the end of the turn: bounce tags cleared, borrowed
    /// cards left out, the set-aside cards taken back.
    pub open spec fn kept_cards(self) -> Seq<CardInstance> {
        keep_owned(self.hand.map_values(|ci: CardInstance| CardInstance { tenwu: false, ..ci }) + self.passage)
    }

    /// The state at the start of the next turn, before its draw: the kept
    /// cards form the hand, up to its limit.
    pub open spec fn next_turn(self) -> GameView {
        let all = self.hand.map_values(|ci: CardInstance| CardInstance { tenwu: false, ..ci }) + self.passage;
        GameView {
            hand: capped_append(seq![], keep_owned(all)),
            passage: seq![],
            deck: self.deck + borrowed_cards(all),
            foxy: 0,
            scabbs: 0,
            next_scabbs: 0,
            prep_pending: false,
            storm: 0,
            turn: self.turn + 1,
            mana: if self.turn + 1 < 10 { self.turn + 1 } else { 10 },
            ..self
        }
    }

    /// `w` is a possible result of ending the turn.
    pub open spec fn end_turn_outcome(self, w: GameView) -> bool {
        self.next_turn().drew(w, DrawFilter::Any)
    }

    pub open spec fn action_outcome(self, a: Action, w: GameView) -> bool {
        match a {
            Action::Play(p) => self.play_outcome(p, w),
            Action::Choose(i) => self.choose_outcome(i as int, w),
            Action::EndTurn => self.end_turn_outcome(w),
        }
    }
}

/// One more draw in front of `n` draws makes `n + 1` draws.
pub proof fn lemma_drew_step(v: GameView, m: GameView, w: GameView, f: DrawFilter, n: nat)
    requires
        v.drew(m, f),
        m.drew_n(w, f, n),
    ensures
        v.drew_n(w, f, n + 1),
{
}

pub proof fn lemma_drew_none(v: GameView, f: DrawFilter)
    ensures
        v.drew_n(v, f, 0),
{
}

/// Moving a deck card into the hand keeps the state well formed.
pub proof fn lemma_take_card_wf(v: GameView, i: int)
    requires
        v.wf(),
        0 <= i < v.deck.len(),
    ensures
        v.take_card(i).wf(),
{
    lemma_fresh_costs_fit(v.deck[i]);
    lemma_costs_fit_append(v.hand, seq![fresh(v.deck[i])]);
    lemma_capped_len(v.hand, seq![fresh(v.deck[i])]);
}

/// A draw keeps the state well formed and touches only the deck and hand.
pub proof fn lemma_drew_wf(v: GameView, w: GameView, f: DrawFilter)
    requires
        v.wf(),
        v.drew(w, f),
    ensures
        w.wf(),
        v.same_but_cards(w),
        v.hand.len() <= HAND_LIMIT ==> w.hand.len() <= HAND_LIMIT,
        w.deck.len() + w.hand.len() <= v.deck.len() + v.hand.len(),
{
    if exists|i: int| 0 <= i < v.deck.len() && accepts(f, v.deck[i]) && w == #[trigger] v.take_card(i) {
        let i = choose|i: int| 0 <= i < v.deck.len() && accepts(f, v.deck[i]) && w == #[trigger] v.take_card(i);
        lemma_take_card_wf(v, i);
        lemma_capped_len(v.hand, seq![fresh(v.deck[i])]);
        lemma_capped_grows_by_at_most(v.hand, seq![fresh(v.deck[i])]);
    }
}

pub proof fn lemma_first_match_range(s: Seq<Card>, f: DrawFilter, k: int)
    requires
        0 <= k,
    ensures
        first_match_from(s, f, k) == -1 || (k <= first_match_from(s, f, k) < s.len()
            && accepts(f, s[first_match_from(s, f, k)])),
    decreases s.len() - k,
{
    if k < s.len() && !accepts(f, s[k]) {
        lemma_first_match_range(s, f, k + 1);
    }
}

/// Drawing the first accepted card keeps the state well formed.
pub proof fn lemma_draw_first_wf(v: GameView, f: DrawFilter)
    requires
        v.wf(),
    ensures
        v.draw_first(f).wf(),
        v.same_but_cards(v.draw_first(f)),
        v.hand.len() <= HAND_LIMIT ==> v.draw_first(f).hand.len() <= HAND_LIMIT,
{
    lemma_first_match_range(v.deck, f, 0);
    let k = first_match_from(v.deck, f, 0);
    if k >= 0 {
        lemma_take_card_wf(v, k);
        lemma_capped_len(v.hand, seq![fresh(v.deck[k])]);
    }
}

/// The moves that play the card at `i` in hand, one per target if it needs one.
pub open spec fn plays_for(v: GameView, i: int) -> Seq<Action> {
    if !v.can_play_at(i) {
        seq![]
    } else if needs_target(v.hand[i].card) {
        Seq::new(v.board.len(), |t: int| Action::Play(Play { index: i as usize, target: Some(t as usize) }))
    } else {
        seq![Action::Play(Play { index: i as usize, target: None })]
    }
}

/// The moves that play one of the first `n` cards of the hand, in hand order.
pub open spec fn plays_upto(v: GameView, n: int) -> Seq<Action>
    decreases n,
{
    if n <= 0 {
        seq![]
    } else {
        plays_upto(v, n - 1) + plays_for(v, n - 1)
    }
}

/// Every legal move, in the order the engine lists them: one choice per
/// offered card while a choice is pending; else ending the turn, then the
/// plays in hand order.
pub open spec fn legal_actions(v: GameView) -> Seq<Action> {
    if v.fish.len() > 0 {
        Seq::new(v.fish.len(), |i: int| Action::Choose(i as usize))
    } else {
        seq![Action::EndTurn] + plays_upto(v, v.hand.len() as int)
    }
}

/// The moves kept for exploration: no minions and no return spell, which
/// are saved for the kill.
pub open spec fn is_non_kill(v: GameView, a: Action) -> bool {
    match a {
        Action::Play(p) => !is_minion(v.hand[p.index as int].card) && v.hand[p.index as int].card != Card::Shadowstep,
        _ => true,
    }
}

pub open spec fn keep_non_kill(v: GameView, s: Seq<Action>) -> Seq<Action>
    decreases s.len(),
{
    if s.len() == 0 {
        s
    } else if is_non_kill(v, s.last()) {
        keep_non_kill(v, s.drop_last()).push(s.last())
    } else {
        keep_non_kill(v, s.drop_last())
    }
}

/// The kept moves come from `s`; and if `s` starts with a kept move, the
/// kept moves start with it too.
pub proof fn lemma_keep_non_kill(v: GameView, s: Seq<Action>)
    ensures
        forall|j: int| 0 <= j < keep_non_kill(v, s).len() ==> s.contains(#[trigger] keep_non_kill(v, s)[j]),
        keep_non_kill(v, s).len() <= s.len(),
        s.len() > 0 && is_non_kill(v, s[0]) ==> keep_non_kill(v, s).len() > 0
            && keep_non_kill(v, s)[0] == s[0],
    decreases s.len(),
{
    if s.len() > 0 {
        let t = s.drop_last();
        lemma_keep_non_kill(v, t);
        let k = keep_non_kill(v, s);
        let q = keep_non_kill(v, t);
        assert forall|j: int| 0 <= j < k.len() implies s.contains(#[trigger] k[j]) by {
            if j < q.len() {
                assert(k[j] == q[j]);
                let i = t.index_of(q[j]);
                assert(s[i] == t[i]);
            } else {
                assert(k[j] == s[s.len() - 1]);
            }
        }
        if s.len() > 1 {
            assert(t[0] == s[0]);
            if is_non_kill(v, s[0]) {
                assert(k[0] == q[0]);
            }
        }
    }
}

/// The plays among the moves, in order.
pub open spec fn plays_of(s: Seq<Action>) -> Seq<Play>
    decreases s.len(),
{
    if s.len() == 0 {
        seq![]
    } else if let Action::Play(p) = s.last() {
        plays_of(s.drop_last()).push(p)
    } else {
        plays_of(s.drop_last())
    }
}

/// The plays among the moves whose card has one possible result, in order.
pub open spec fn fixed_plays_of(v: GameView, s: Seq<Action>) -> Seq<Play>
    decreases s.len(),
{
    if s.len() == 0 {
        seq![]
    } else if let Action::Play(p) = s.last() {
        if v.is_fixed_card(v.hand[p.index as int].card) {
            fixed_plays_of(v, s.drop_last()).push(p)
        } else {
            fixed_plays_of(v, s.drop_last())
        }
    } else {
        fixed_plays_of(v, s.drop_last())
    }
}

/// The plays listed for the first `n` cards are exactly the legal plays of
/// those cards.
pub proof fn lemma_plays_upto(v: GameView, n: int)
    requires
        v.fish.len() == 0,
        0 <= n <= v.hand.len(),
        v.hand.len() <= usize::MAX,
        v.board.len() <= usize::MAX,
    ensures
        forall|k: int| 0 <= k < plays_upto(v, n).len() ==> (#[trigger] plays_upto(v, n)[k] matches
            Action::Play(p) && p.index < n && v.legal_play(p)),
        forall|p: Play| p.index < n && v.legal_play(p) ==> #[trigger] plays_upto(v, n).contains(Action::Play(p)),
    decreases n,
{
    if n > 0 {
        lemma_plays_upto(v, n - 1);
        let a = plays_upto(v, n - 1);
        let b = plays_for(v, n - 1);
        assert forall|k: int| 0 <= k < plays_upto(v, n).len() implies (#[trigger] plays_upto(v, n)[k] matches
            Action::Play(p) && p.index < n && v.legal_play(p)) by {
            if k < a.len() {
                assert(plays_upto(v, n)[k] == a[k]);
            } else {
                assert(plays_upto(v, n)[k] == b[k - a.len()]);
            }
        }
        assert forall|p: Play| p.index < n && v.legal_play(p) implies #[trigger] plays_upto(v, n).contains(Action::Play(p)) by {
            if p.index < n - 1 {
                assert(a.contains(Action::Play(p)));
                let k = a.index_of(Action::Play(p));
                assert(plays_upto(v, n)[k] == a[k]);
            } else {
                let k: int = if needs_target(v.hand[n - 1].card) { p.target->0 as int } else { 0 };
                assert(b[k] == Action::Play(p));
                assert(plays_upto(v, n)[a.len() + k] == b[k]);
            }
        }
    }
}

/// The listed moves are exactly the legal moves.
pub proof fn lemma_legal_actions(v: GameView)
    requires
        v.hand.len() <= usize::MAX,
        v.board.len() <= usize::MAX,
        v.fish.len() <= usize::MAX,
    ensures
        forall|k: int| 0 <= k < legal_actions(v).len() ==> v.legal_action(#[trigger] legal_actions(v)[k]),
        forall|a: Action| v.legal_action(a) ==> #[trigger] legal_actions(v).contains(a),
{
    if v.fish.len() > 0 {
        assert forall|a: Action| v.legal_action(a) implies #[trigger] legal_actions(v).contains(a) by {
            if let Action::Choose(i) = a {
                assert(legal_actions(v)[i as int] == a);
            }
        }
    } else {
        lemma_plays_upto(v, v.hand.len() as int);
        let u = plays_upto(v, v.hand.len() as int);
        assert forall|k: int| 0 <= k < legal_actions(v).len() implies v.legal_action(#[trigger] legal_actions(v)[k]) by {
            if k > 0 {
                assert(legal_actions(v)[k] == u[k - 1]);
            }
        }
        assert forall|a: Action| v.legal_action(a) implies #[trigger] legal_actions(v).contains(a) by {
            match a {
                Action::EndTurn => {
                    assert(legal_actions(v)[0] == a);
                },
                Action::Play(p) => {
                    assert(u.contains(a));
                    let k = u.index_of(a);
                    assert(legal_actions(v)[k + 1] == a);
                },
                Action::Choose(i) => {},
            }
        }
    }
}

/// The plays among legal moves are legal.
pub proof fn lemma_plays_of(v: GameView, s: Seq<Action>)
    requires
        forall|k: int| 0 <= k < s.len() ==> v.legal_action(#[trigger] s[k]),
    ensures
        forall|j: int| 0 <= j < plays_of(s).len() ==> v.legal_play(#[trigger] plays_of(s)[j]),
    decreases s.len(),
{
    if s.len() > 0 {
        let t = s.drop_last();
        assert forall|k: int| 0 <= k < t.len() implies v.legal_action(#[trigger] t[k]) by {
            assert(t[k] == s[k]);
        }
        lemma_plays_of(v, t);
        let q = plays_of(t);
        assert(v.legal_action(s[s.len() - 1]));
        assert forall|j: int| 0 <= j < plays_of(s).len() implies v.legal_play(#[trigger] plays_of(s)[j]) by {
            if j < q.len() {
                assert(plays_of(s)[j] == q[j]);
            }
        }
    }
}

/// The plays kept by `fixed_plays_of` are legal and fixed; and every legal
/// play of a fixed card that the moves list is kept.
pub proof fn lemma_fixed_plays(v: GameView, s: Seq<Action>)
    requires
        forall|k: int| 0 <= k < s.len() ==> v.legal_action(#[trigger] s[k]),
    ensures
        forall|j: int| 0 <= j < fixed_plays_of(v, s).len() ==> v.legal_play(#[trigger] fixed_plays_of(v, s)[j])
            && v.is_fixed_card(v.hand[fixed_plays_of(v, s)[j].index as int].card),
        forall|p: Play| s.contains(Action::Play(p)) && v.is_fixed_card(v.hand[p.index as int].card)
            ==> #[trigger] fixed_plays_of(v, s).contains(p),
    decreases s.len(),
{
    if s.len() > 0 {
        let t = s.drop_last();
        assert forall|k: int| 0 <= k < t.len() implies v.legal_action(#[trigger] t[k]) by {
            assert(t[k] == s[k]);
        }
        lemma_fixed_plays(v, t);
        let r = fixed_plays_of(v, s);
        let q = fixed_plays_of(v, t);
        assert(v.legal_action(s[s.len() - 1]));
        assert forall|j: int| 0 <= j < r.len() implies v.legal_play(#[trigger] r[j])
            && v.is_fixed_card(v.hand[r[j].index as int].card) by {
            if j < q.len() {
                assert(r[j] == q[j]);
            }
        }
        assert forall|p: Play| s.contains(Action::Play(p)) && v.is_fixed_card(v.hand[p.index as int].card)
            implies #[trigger] r.contains(p) by {
            let k = s.index_of(Action::Play(p));
            if k < t.len() {
                assert(t[k] == Action::Play(p));
                assert(q.contains(p));
                let j = q.index_of(p);
                assert(r[j] == q[j]);
            } else {
                assert(r[r.len() - 1] == p);
            }
        }
    }
}

/// Playing the moves `s` in order, each on the state the previous one left,
/// wins: every move is a legal play of a fixed card made before the game is
/// won, the state has room for it, and the last state has won.
pub open spec fn wins_with(v: GameView, s: Seq<Play>) -> bool
    decreases s.len(),
{
    if s.len() == 0 {
        v.is_win()
    } else {
        &&& !v.is_win()
        &&& v.wf()
        &&& v.has_room()
        &&& v.legal_play(s[0])
        &&& v.is_fixed_card(v.hand[s[0].index as int].card)
        &&& wins_with(v.play_fixed(s[0]), s.drop_first())
    }
}

/// The plays are plays of fixed cards, each legal in the state where it is
/// made, and each made in a well-formed state with room.
pub open spec fn fixed_path(v: GameView, s: Seq<Play>) -> bool
    decreases s.len(),
{
    if s.len() == 0 {
        true
    } else {
        &&& v.wf()
        &&& v.has_room()
        &&& v.legal_play(s[0])
        &&& v.is_fixed_card(v.hand[s[0].index as int].card)
        &&& fixed_path(v.play_fixed(s[0]), s.drop_first())
    }
}

/// The state after the plays.
pub open spec fn path_end(v: GameView, s: Seq<Play>) -> GameView
    decreases s.len(),
{
    if s.len() == 0 { v } else { path_end(v.play_fixed(s[0]), s.drop_first()) }
}

/// Every state that plays of fixed cards reach from `v` has room.
pub open spec fn room_everywhere(v: GameView) -> bool {
    forall|s: Seq<Play>| #[trigger] fixed_path(v, s) ==> path_end(v, s).has_room()
}

/// Room everywhere from a state gives room everywhere after one of its plays.
pub proof fn lemma_room_after_play(v: GameView, p: Play)
    requires
        room_everywhere(v),
        v.wf(),
        v.has_room(),
        v.legal_play(p),
        v.is_fixed_card(v.hand[p.index as int].card),
    ensures
        room_everywhere(v.play_fixed(p)),
{
    let w = v.play_fixed(p);
    assert forall|s: Seq<Play>| #[trigger] fixed_path(w, s) implies path_end(w, s).has_room() by {
        let t = seq![p] + s;
        assert(t[0] == p);
        assert(t.drop_first() =~= s);
        assert(fixed_path(v, t));
        assert(path_end(v, t) == path_end(w, s));
    }
}

/// Some sequence of plays of fixed cards wins from `v`.
pub open spec fn has_fixed_win(v: GameView) -> bool {
    exists|s: Seq<Play>| wins_with(v, s)
}

/// The sequence in reverse order.
pub open spec fn reversed(s: Seq<Play>) -> Seq<Play>
    decreases s.len(),
{
    if s.len() == 0 {
        s
    } else {
        seq![s.last()] + reversed(s.drop_last())
    }
}

/// Replaying a winning plan: whatever state each play leads to, every play
/// is legal and the state it is made in is well formed, has room for it and
/// has not won yet, and the last state has won.
pub proof fn lemma_win_replays(v: GameView, s: Seq<Play>, states: Seq<GameView>)
    requires
        wins_with(v, s),
        states.len() == s.len() + 1,
        states[0] == v,
        forall|k: int| 0 <= k < s.len() ==> (#[trigger] states[k]).play_outcome(s[k], states[k + 1]),
    ensures
        forall|k: int| 0 <= k < s.len() ==> (#[trigger] states[k]).legal_play(s[k]) && states[k].wf()
            && states[k].has_room() && !states[k].is_win(),
        states[s.len() as int].is_win(),
    decreases s.len(),
{
    if s.len() > 0 {
        let w = states[1];
        lemma_fixed_outcome(v, s[0], w);
        let rest = states.drop_first();
        assert forall|k: int| 0 <= k < s.drop_first().len() implies
            (#[trigger] rest[k]).play_outcome(s.drop_first()[k], rest[k + 1]) by {
            assert(rest[k] == states[k + 1]);
            assert(states[k + 1].play_outcome(s[k + 1], states[k + 2]));
        }
        lemma_win_replays(w, s.drop_first(), rest);
        assert forall|k: int| 0 <= k < s.len() implies (#[trigger] states[k]).legal_play(s[k]) && states[k].wf()
            && states[k].has_room() && !states[k].is_win() by {
            if k > 0 {
                assert(states[k] == rest[k - 1]);
                assert(s[k] == s.drop_first()[k - 1]);
            }
        }
        assert(states[s.len() as int] == rest[s.drop_first().len() as int]);
    }
}

/// A play of a fixed card has exactly one outcome.
pub proof fn lemma_fixed_outcome(v: GameView, p: Play, w: GameView)
    requires
        v.is_fixed_card(v.hand[p.index as int].card),
    ensures
        v.play_outcome(p, w) <==> w == v.play_fixed(p),
{
    let c = v.hand[p.index as int].card;
    let m = v.before_effect(p);
    if v.play_outcome(p, w) {
        assert(w =~= v.play_fixed(p));
    }
    if w == v.play_fixed(p) {
        assert((GameView { storm: m.storm, ..w }) =~= m.fixed_effect(c, p.target));
    }
}

/// The instances that are not borrowed, in order.
pub open spec fn keep_owned(s: Seq<CardInstance>) -> Seq<CardInstance>
    decreases s.len(),
{
    if s.len() == 0 {
        s
    } else if s.last().passage {
        keep_owned(s.drop_last())
    } else {
        keep_owned(s.drop_last()).push(s.last())
    }
}

pub proof fn lemma_keep_owned_fits(s: Seq<CardInstance>)
    requires
        costs_fit(s),
    ensures
        costs_fit(keep_owned(s)),
        keep_owned(s).len() <= s.len(),
    decreases s.len(),
{
    if s.len() > 0 {
        lemma_keep_owned_fits(s.drop_last());
        let k = keep_owned(s.drop_last());
        if !s.last().passage {
            assert forall|i: int| 0 <= i < k.push(s.last()).len() implies
                (#[trigger] k.push(s.last())[i]).cost_reduction >= REDUCTION_FLOOR by {
                if i < k.len() {
                    assert(k.push(s.last())[i] == k[i]);
                }
            }
        }
    }
}

/// The card kinds of the borrowed instances, in order.
pub open spec fn borrowed_cards(s: Seq<CardInstance>) -> Seq<Card>
    decreases s.len(),
{
    if s.len() == 0 {
        seq![]
    } else if s.last().passage {
        borrowed_cards(s.drop_last()).push(s.last().card)
    } else {
        borrowed_cards(s.drop_last())
    }
}

} // verus!
