//! The state transition engine: legal moves and their effects.
use vstd::prelude::*;

use vstd::string::StringExecFns;

use crate::card::{
    card_name, fresh, instance_cost, instance_text, is_combo, is_spell, is_trade_card, Card,
    CardInstance,
};
use crate::hash::{
    card_word, hash_words, instance_word, mix_cards, mix_instances, mix_word, state_key, HASH_SEED,
};
use crate::random::{choose_cards, choose_index, coin_flip};
use crate::rules::{
    accepts, capped_append, costs_fit, count_minions, first_match_from, fixed_plays_of,
    has_fixed_win, keep_non_kill, lemma_capped_len, lemma_costs_fit_append, lemma_costs_fit_remove,
    lemma_draw_first_wf, lemma_drew_none, lemma_drew_step, lemma_drew_wf, lemma_fresh_costs_fit,
    lemma_legal_actions, legal_actions, plays_for, plays_of, plays_upto, potion_copy, wins_with,
    DrawFilter, GameView, BOARD_LIMIT, HAND_LIMIT,
};
pub use crate::rules::{Action, Play};
pub use crate::solver::Plan;
use crate::text::{append_signed, signed_decimal};

verus! {

broadcast use vstd::std_specs::vec::group_vec_axioms;

/// The state of one side's game: our board and hand, the opponent's life and
/// the counters that the turn's combo effects read.
pub struct Game {
    /// Our side of the board, in play order.
    pub board: Vec<Card>,
    pub hand: Vec<CardInstance>,
    /// The hand set aside by the hand-swap effect.
    pub passage: Vec<CardInstance>,
    /// The opponent's life.
    pub life: i32,
    pub mana: i32,
    /// Cards played this turn that count towards storm.
    storm: i32,
    foxy: i32,
    scabbs: i32,
    next_scabbs: i32,
    /// The cards left in the deck.
    pub deck: Vec<Card>,
    pub turn: i32,
    /// Whether the next spell is two cheaper.
    prep_pending: bool,
    /// The cards offered by a pending choice.
    pub fish: Vec<Card>,
}

impl View for Game {
    type V = GameView;

    closed spec fn view(&self) -> GameView {
        GameView {
            board: self.board@,
            hand: self.hand@,
            passage: self.passage@,
            life: self.life as int,
            mana: self.mana as int,
            storm: self.storm as int,
            foxy: self.foxy as int,
            scabbs: self.scabbs as int,
            next_scabbs: self.next_scabbs as int,
            deck: self.deck@,
            turn: self.turn as int,
            prep_pending: self.prep_pending,
            fish: self.fish@,
        }
    }
}

impl Clone for Game {
    fn clone(&self) -> (r: Game)
        ensures
            r@ == self@,
    {
        let r = Game {
            board: self.board.clone(),
            hand: self.hand.clone(),
            passage: self.passage.clone(),
            life: self.life,
            mana: self.mana,
            storm: self.storm,
            foxy: self.foxy,
            scabbs: self.scabbs,
            next_scabbs: self.next_scabbs,
            deck: self.deck.clone(),
            turn: self.turn,
            prep_pending: self.prep_pending,
            fish: self.fish.clone(),
        };
        assert(r.board@ =~= self.board@);
        assert(r.hand@ =~= self.hand@);
        assert(r.passage@ =~= self.passage@);
        assert(r.deck@ =~= self.deck@);
        assert(r.fish@ =~= self.fish@);
        r
    }
}

fn reductions_above_floor(s: &Vec<CardInstance>) -> (r: bool)
    ensures
        r == costs_fit(s@),
{
    let mut i: usize = 0;
    while i < s.len()
        invariant
            i <= s@.len(),
            forall|j: int| 0 <= j < i ==> (#[trigger] s@[j]).cost_reduction >= crate::rules::REDUCTION_FLOOR,
        decreases s@.len() - i,
    {
        if s[i].cost_reduction < crate::rules::REDUCTION_FLOOR {
            return false;
        }
        i = i + 1;
    }
    true
}

fn cards_equal(a: &Vec<Card>, b: &Vec<Card>) -> (r: bool)
    ensures
        r == (a@ == b@),
{
    if a.len() != b.len() {
        return false;
    }
    let mut i: usize = 0;
    while i < a.len()
        invariant
            a@.len() == b@.len(),
            i <= a@.len(),
            forall|j: int| 0 <= j < i ==> a@[j] == b@[j],
        decreases a@.len() - i,
    {
        if a[i] != b[i] {
            return false;
        }
        i = i + 1;
    }
    assert(a@ =~= b@);
    true
}

fn instances_equal(a: &Vec<CardInstance>, b: &Vec<CardInstance>) -> (r: bool)
    ensures
        r == (a@ == b@),
{
    if a.len() != b.len() {
        return false;
    }
    let mut i: usize = 0;
    while i < a.len()
        invariant
            a@.len() == b@.len(),
            i <= a@.len(),
            forall|j: int| 0 <= j < i ==> a@[j] == b@[j],
        decreases a@.len() - i,
    {
        if a[i] != b[i] {
            return false;
        }
        i = i + 1;
    }
    assert(a@ =~= b@);
    true
}

/// Two games are equal when every part of their states is.
impl PartialEq for Game {
    fn eq(&self, other: &Game) -> (r: bool) {
        let r = self.life == other.life && self.mana == other.mana && self.storm == other.storm
            && self.foxy == other.foxy && self.scabbs == other.scabbs
            && self.next_scabbs == other.next_scabbs && self.turn == other.turn
            && self.prep_pending == other.prep_pending && cards_equal(&self.board, &other.board)
            && instances_equal(&self.hand, &other.hand)
            && instances_equal(&self.passage, &other.passage)
            && cards_equal(&self.deck, &other.deck) && cards_equal(&self.fish, &other.fish);
        proof {
            if r {
                assert(self@ =~= other@);
            }
        }
        r
    }
}

impl vstd::std_specs::cmp::PartialEqSpecImpl for Game {
    open spec fn obeys_eq_spec() -> bool {
        true
    }

    open spec fn eq_spec(&self, other: &Game) -> bool {
        self@ == other@
    }
}

impl Eq for Game {
}

impl DrawFilter {
    fn accepts_card(&self, c: &Card) -> (r: bool)
        ensures
            r == accepts(*self, *c),
    {
        match self {
            DrawFilter::Any => true,
            DrawFilter::Minion => c.minion(),
            DrawFilter::Spell => c.spell(),
            DrawFilter::Exactly(d) => *c == *d,
        }
    }
}

impl Game {
    /// The lengths of the state's sequences fit in a `usize`.
    pub proof fn lemma_lengths(&self)
        ensures
            self@.hand.len() <= usize::MAX,
            self@.board.len() <= usize::MAX,
            self@.fish.len() <= usize::MAX,
            self@.deck.len() <= usize::MAX,
    {
        assert(self.hand@.len() == self.hand.len());
        assert(self.board@.len() == self.board.len());
        assert(self.fish@.len() == self.fish.len());
        assert(self.deck@.len() == self.deck.len());
    }

    /// The structural hash of this state.
    pub fn hash_value(&self) -> (r: u64)
        ensures
            r == state_key(self@),
    {
        let v = self.counters();
        let mut h: u64 = HASH_SEED;
        let mut i: usize = 0;
        while i < v.len()
            invariant
                i <= v@.len(),
                h == hash_words(v@.take(i as int)),
            decreases v@.len() - i,
        {
            let ghost done = v@.take(i as int);
            h = mix_word(h, v[i], Ghost(done));
            i = i + 1;
            assert(done.push(v@[i - 1]) =~= v@.take(i as int));
        }
        assert(v@.take(i as int) =~= v@);
        let ghost w1 = v@;
        let h = mix_cards(h, &self.board, Ghost(w1));
        let ghost w2 = w1 + seq![self@.board.len() as u64] + self@.board.map_values(|c: Card| card_word(c));
        let h = mix_instances(h, &self.hand, Ghost(w2));
        let ghost w3 = w2 + seq![self@.hand.len() as u64] + self@.hand.map_values(|ci: CardInstance| instance_word(ci));
        let h = mix_instances(h, &self.passage, Ghost(w3));
        let ghost w4 = w3 + seq![self@.passage.len() as u64] + self@.passage.map_values(|ci: CardInstance| instance_word(ci));
        let h = mix_cards(h, &self.deck, Ghost(w4));
        let ghost w5 = w4 + seq![self@.deck.len() as u64] + self@.deck.map_values(|c: Card| card_word(c));
        let h = mix_cards(h, &self.fish, Ghost(w5));
        h
    }

    /// The counters of the state as words for the structural hash.
    pub(crate) fn counters(&self) -> (r: Vec<u64>)
        ensures
            r@ == seq![crate::hash::field_word(self@.life), crate::hash::field_word(self@.mana),
                crate::hash::field_word(self@.storm), crate::hash::field_word(self@.foxy),
                crate::hash::field_word(self@.scabbs), crate::hash::field_word(self@.next_scabbs),
                crate::hash::field_word(self@.turn), if self@.prep_pending { 1u64 } else { 0u64 }],
    {
        let r = vec![
            (self.life as i64 + 2147483648) as u64,
            (self.mana as i64 + 2147483648) as u64,
            (self.storm as i64 + 2147483648) as u64,
            (self.foxy as i64 + 2147483648) as u64,
            (self.scabbs as i64 + 2147483648) as u64,
            (self.next_scabbs as i64 + 2147483648) as u64,
            (self.turn as i64 + 2147483648) as u64,
            if self.prep_pending { 1u64 } else { 0u64 },
        ];
        assert(r@ =~= seq![crate::hash::field_word(self@.life), crate::hash::field_word(self@.mana),
            crate::hash::field_word(self@.storm), crate::hash::field_word(self@.foxy),
            crate::hash::field_word(self@.scabbs), crate::hash::field_word(self@.next_scabbs),
            crate::hash::field_word(self@.turn), if self@.prep_pending { 1u64 } else { 0u64 }]);
        r
    }

    /// An empty game: no cards anywhere, the opponent at 30 life, turn 0.
    pub fn new() -> (r: Game)
        ensures
            r@ == (GameView {
                board: seq![],
                hand: seq![],
                passage: seq![],
                life: 30,
                mana: 0,
                storm: 0,
                foxy: 0,
                scabbs: 0,
                next_scabbs: 0,
                deck: seq![],
                turn: 0,
                prep_pending: false,
                fish: seq![],
            }),
            r@.wf(),
    {
        let r = Game {
            board: Vec::new(),
            hand: Vec::new(),
            passage: Vec::new(),
            life: 30,
            mana: 0,
            storm: 0,
            foxy: 0,
            scabbs: 0,
            next_scabbs: 0,
            deck: Vec::new(),
            turn: 0,
            prep_pending: false,
            fish: Vec::new(),
        };
        assert(r@.board =~= seq![]);
        r
    }

    /// The hand as shown to a player.
    pub fn hand_string(&self) -> (r: String)
        ensures
            r@ == hand_text(self@.hand),
    {
        let mut s = String::new();
        let mut i: usize = 0;
        while i < self.hand.len()
            invariant
                i <= self.hand@.len(),
                s@ == hand_text(self.hand@.take(i as int)),
            decreases self.hand@.len() - i,
        {
            let ghost before = s@;
            if i > 0 {
                s.append(", ");
            }
            let d = self.hand[i].describe();
            s.append(d.as_str());
            proof {
                let t = self.hand@.take(i as int + 1);
                assert(t.drop_last() =~= self.hand@.take(i as int));
                if i == 0 {
                    assert(s@ =~= instance_text(t[0]));
                } else {
                    assert(s@ =~= hand_text(t.drop_last()) + ", "@ + instance_text(t.last()));
                }
            }
            i = i + 1;
        }
        assert(self.hand@.take(i as int) =~= self.hand@);
        s
    }

    /// A play as shown to a player.
    pub fn play_string(&self, play: &Play) -> (r: String)
        requires
            play.index < self@.hand.len(),
            play.target matches Some(t) ==> t < self@.board.len(),
        ensures
            r@ == play_text(self@, *play),
    {
        let mut s = self.hand[play.index].describe();
        let ghost head = s@;
        match play.target {
            Some(t) => {
                s.append(" -> ");
                s.append(self.board[t].name());
                assert(s@ =~= head + (" -> "@ + card_name(self@.board[t as int])));
            },
            None => {
                assert(s@ =~= head + Seq::<char>::empty());
            },
        }
        s
    }

    /// A move as shown to a player.
    pub fn action_string(&self, action: &Action) -> (r: String)
        requires
            self@.legal_action(*action),
        ensures
            *action matches Action::Play(p) ==> r@ == play_text(self@, p),
            *action matches Action::Choose(i) ==> r@ == card_name(self@.fish[i as int]),
            *action is EndTurn ==> r@ == "end turn"@,
    {
        match action {
            Action::Play(play) => self.play_string(play),
            Action::Choose(i) => String::from_str(self.fish[*i].name()),
            Action::EndTurn => String::from_str("end turn"),
        }
    }

    /// The state as shown to a player.
    pub fn describe(&self) -> (r: String)
        ensures
            r@ == state_text(self@),
    {
        let mut s = String::from_str("board: ");
        let mut i: usize = 0;
        while i < self.board.len()
            invariant
                i <= self.board@.len(),
                s@ == "board: "@ + cards_text(self.board@.take(i as int)),
            decreases self.board@.len() - i,
        {
            if i > 0 {
                s.append(", ");
            }
            s.append(self.board[i].name());
            proof {
                let t = self.board@.take(i as int + 1);
                assert(t.drop_last() =~= self.board@.take(i as int));
                if i == 0 {
                    assert(s@ =~= "board: "@ + card_name(t[0]));
                } else {
                    assert(s@ =~= "board: "@ + (cards_text(t.drop_last()) + ", "@ + card_name(t.last())));
                }
            }
            i = i + 1;
        }
        assert(self.board@.take(i as int) =~= self.board@);
        s.append("\nhand: ");
        let h = self.hand_string();
        s.append(h.as_str());
        s.append("\nlife: ");
        append_signed(&mut s, self.life);
        s.append("\nmana: ");
        append_signed(&mut s, self.mana);
        s.append("\n");
        let ghost base = s@;
        append_counter(&mut s, "storm: ", self.storm);
        append_counter(&mut s, "foxy: ", self.foxy);
        append_counter(&mut s, "scabbs: ", self.scabbs);
        append_counter(&mut s, "next_scabbs: ", self.next_scabbs);
        let ghost d = s@;
        if self.prep_pending {
            s.append("prep_pending\n");
        }
        proof {
            assert(base =~= "board: "@ + cards_text(self@.board) + "\nhand: "@ + hand_text(self@.hand)
                + "\nlife: "@ + signed_decimal(self@.life) + "\nmana: "@ + signed_decimal(self@.mana)
                + "\n"@);
            assert(s@ =~= state_text(self@));
        }
        s
    }

    /// The card at `index` in hand.
    pub fn hand_instance(&self, index: usize) -> (r: CardInstance)
        requires
            index < self@.hand.len(),
        ensures
            r == self@.hand[index as int],
    {
        self.hand[index]
    }

    /// The number of cards offered by a pending choice.
    pub fn fish_len(&self) -> (r: usize)
        ensures
            r == self@.fish.len(),
    {
        self.fish.len()
    }

    /// The current turn.
    pub fn current_turn(&self) -> (r: i32)
        ensures
            r == self@.turn,
    {
        self.turn
    }

    /// Whether the state satisfies the engine's invariant: at most ten cards
    /// in hand and seven minions, no negative mana, turn or counter, and cost reductions above
    /// the floor.
    pub fn well_formed(&self) -> (r: bool)
        ensures
            r == self@.wf(),
    {
        if !(self.hand.len() <= HAND_LIMIT && self.board.len() <= BOARD_LIMIT && self.mana >= 0 && self.turn >= 0 && self.storm >= 0
            && self.foxy >= 0 && self.scabbs >= 0 && self.next_scabbs >= 0) {
            return false;
        }
        reductions_above_floor(&self.hand) && reductions_above_floor(&self.passage)
    }

    /// Whether a combo effect would trigger now.
    pub fn can_combo(&self) -> (r: bool)
        ensures
            r == (self@.storm > 0),
    {
        self.storm > 0
    }

    /// Whether nothing has been played yet this turn and the mana is untouched.
    pub fn turn_is_fresh(&self) -> (r: bool)
        ensures
            r == (self@.storm == 0 && self@.turn == self@.mana),
    {
        self.storm == 0 && self.turn == self.mana
    }

    pub fn is_win(&self) -> (r: bool)
        ensures
            r == self@.is_win(),
    {
        self.life <= 0
    }

    /// Whether the counters are far enough from the limits of `i32` for one
    /// more step.
    pub fn has_room(&self) -> (r: bool)
        ensures
            r == self@.has_room(),
    {
        self.storm < crate::rules::COUNTER_ROOM && self.foxy < crate::rules::COUNTER_ROOM
            && self.scabbs < crate::rules::COUNTER_ROOM && self.next_scabbs < crate::rules::COUNTER_ROOM
            && self.mana < crate::rules::COUNTER_ROOM && self.turn < crate::rules::COUNTER_ROOM
            && self.life > -crate::rules::LIFE_ROOM
    }

    /// The cost of the card at `index` in hand, with the discounts of the turn.
    pub fn cost(&self, index: usize) -> (r: i32)
        requires
            self@.wf(),
            index < self@.hand.len(),
        ensures
            r == self@.cost_at(index as int),
            0 <= r <= instance_cost(self@.hand[index as int]),
    {
        let card = self.hand[index];
        proof {
            crate::rules::lemma_floor_cost(card);
        }
        let mut cost: i64 = card.cost() as i64 - self.scabbs as i64 * 3;
        if card.card.combo() {
            cost = cost - self.foxy as i64 * 2;
        }
        if card.card.spell() && self.prep_pending {
            cost = cost - 2;
        }
        if cost < 0 { 0 } else { cost as i32 }
    }

    /// Whether the card at `index` in hand can be played now.
    pub fn can_play(&self, index: usize) -> (r: bool)
        requires
            self@.wf(),
            index < self@.hand.len(),
        ensures
            r == self@.can_play_at(index as int),
    {
        let card = self.hand[index];
        if self.board.len() >= BOARD_LIMIT && card.card.minion() {
            return false;
        }
        self.mana >= self.cost(index)
    }

    /// Adds the instances to the hand in order, discarding those that do not
    /// fit.
    pub fn add_card_instances_to_hand(&mut self, cis: Vec<CardInstance>)
        ensures
            final(self)@ == old(self)@.add_instances(cis@),
    {
        let ghost g0 = self@;
        let mut i: usize = 0;
        while i < cis.len() && self.hand.len() < HAND_LIMIT
            invariant
                i <= cis@.len(),
                self@ == g0.with_hand(self@.hand),
                g0.hand.len() >= HAND_LIMIT ==> self@.hand == g0.hand && i == 0,
                g0.hand.len() < HAND_LIMIT ==> self@.hand == g0.hand + cis@.take(i as int),
                g0.hand.len() < HAND_LIMIT ==> self@.hand.len() <= HAND_LIMIT,
            decreases cis@.len() - i,
        {
            self.hand.push(cis[i]);
            proof {
                assert(cis@.take(i as int + 1) =~= cis@.take(i as int).push(cis@[i as int]));
            }
            i = i + 1;
        }
        proof {
            if g0.hand.len() < HAND_LIMIT {
                if i == cis@.len() {
                    assert(cis@.take(i as int) =~= cis@);
                }
            }
            assert(self@ =~= g0.add_instances(cis@));
        }
    }

    pub fn add_card_instance_to_hand(&mut self, ci: CardInstance)
        ensures
            final(self)@ == old(self)@.add_instances(seq![ci]),
    {
        let v = vec![ci];
        assert(v@ =~= seq![ci]);
        self.add_card_instances_to_hand(v);
    }

    /// Adds a fresh instance of each card to the hand, discarding those that
    /// do not fit.
    pub fn add_cards_to_hand(&mut self, cards: Vec<Card>)
        ensures
            final(self)@ == old(self)@.add_instances(cards@.map_values(|c: Card| fresh(c))),
    {
        let mut cis: Vec<CardInstance> = Vec::new();
        let mut i: usize = 0;
        while i < cards.len()
            invariant
                i <= cards@.len(),
                cis@ =~= cards@.take(i as int).map_values(|c: Card| fresh(c)),
            decreases cards@.len() - i,
        {
            cis.push(CardInstance::new(&cards[i]));
            i = i + 1;
            assert(cis@ =~= cards@.take(i as int).map_values(|c: Card| fresh(c)));
        }
        assert(cards@.take(i as int) =~= cards@);
        self.add_card_instances_to_hand(cis);
    }

    /// Moves the deck card at `i` into the hand.
    fn take_card(&mut self, i: usize)
        requires
            i < old(self)@.deck.len(),
        ensures
            final(self)@ == old(self)@.take_card(i as int),
    {
        let card = self.deck.remove(i);
        self.add_card_to_hand(&card);
    }

    /// Draws a random deck card accepted by `f`; returns whether there was one.
    fn draw_from(&mut self, f: DrawFilter) -> (r: bool)
        ensures
            old(self)@.drew(final(self)@, f),
            r == exists|i: int| 0 <= i < old(self)@.deck.len() && accepts(f, #[trigger] old(self)@.deck[i]),
    {
        let ghost g0 = self@;
        let mut candidates: Vec<usize> = Vec::new();
        let mut i: usize = 0;
        while i < self.deck.len()
            invariant
                self@ == g0,
                i <= self.deck@.len(),
                forall|k: int| 0 <= k < candidates@.len() ==> #[trigger] candidates@[k] < i
                    && accepts(f, self.deck@[candidates@[k] as int]),
                forall|j: int| 0 <= j < i && accepts(f, self.deck@[j]) ==> candidates@.contains(j as usize),
            decreases self.deck@.len() - i,
        {
            let ghost old_c = candidates@;
            if f.accepts_card(&self.deck[i]) {
                candidates.push(i);
                assert(candidates@[candidates@.len() - 1] == i);
            }
            proof {
                assert forall|j: int| 0 <= j < i + 1 && accepts(f, self.deck@[j]) implies
                    candidates@.contains(j as usize) by {
                    if j < i {
                        let k = old_c.index_of(j as usize);
                        assert(candidates@[k] == j as usize);
                    } else {
                        assert(candidates@[candidates@.len() - 1] == i);
                    }
                }
            }
            i = i + 1;
        }
        match choose_index(&candidates) {
            Some(x) => {
                let ghost k = candidates@.index_of(x);
                assert(candidates@[k] == x);
                self.take_card(x);
                assert(accepts(f, g0.deck[x as int]) && self@ == g0.take_card(x as int));
                true
            },
            None => {
                assert forall|j: int| 0 <= j < g0.deck.len() implies !accepts(f, #[trigger] g0.deck[j]) by {
                    if accepts(f, g0.deck[j]) {
                        assert(candidates@.contains(j as usize));
                    }
                }
                false
            },
        }
    }

    /// Draws the first deck card accepted by `f`; returns whether there was one.
    fn draw_first(&mut self, f: DrawFilter) -> (r: bool)
        ensures
            final(self)@ == old(self)@.draw_first(f),
            r == (first_match_from(old(self)@.deck, f, 0) >= 0),
    {
        let mut k: usize = 0;
        while k < self.deck.len() && !f.accepts_card(&self.deck[k])
            invariant
                k <= self.deck@.len(),
                first_match_from(self.deck@, f, 0) == first_match_from(self.deck@, f, k as int),
            decreases self.deck@.len() - k,
        {
            k = k + 1;
        }
        if k < self.deck.len() {
            self.take_card(k);
            true
        } else {
            false
        }
    }

    /// Draws one random card.
    fn draw(&mut self) -> (r: bool)
        ensures
            old(self)@.drew(final(self)@, DrawFilter::Any),
    {
        self.draw_from(DrawFilter::Any)
    }

    fn draw_minion(&mut self) -> (r: bool)
        ensures
            old(self)@.drew(final(self)@, DrawFilter::Minion),
    {
        self.draw_from(DrawFilter::Minion)
    }

    fn draw_first_minion(&mut self) -> (r: bool)
        ensures
            final(self)@ == old(self)@.draw_first(DrawFilter::Minion),
    {
        self.draw_first(DrawFilter::Minion)
    }

    fn draw_spell(&mut self) -> (r: bool)
        ensures
            old(self)@.drew(final(self)@, DrawFilter::Spell),
    {
        self.draw_from(DrawFilter::Spell)
    }

    fn draw_specific(&mut self, card: &Card) -> (r: bool)
        ensures
            old(self)@.drew(final(self)@, DrawFilter::Exactly(*card)),
    {
        self.draw_from(DrawFilter::Exactly(*card))
    }

    /// The battlecry or combo effect of `card`.
    fn come_into_play(&mut self, card: &Card)
        requires
            old(self)@.storm >= 0,
            old(self)@.foxy < i32::MAX,
            old(self)@.scabbs < i32::MAX,
            old(self)@.next_scabbs < i32::MAX,
            old(self)@.life - old(self)@.storm >= i32::MIN,
        ensures
            final(self)@ == old(self)@.battlecry(*card),
    {
        match card {
            Card::Dancer => self.add_card_to_hand(&Card::Coin),
            Card::Foxy => self.foxy = self.foxy + 1,
            Card::Pillager => self.life = self.life - self.storm,
            Card::Scabbs => {
                if self.storm > 0 {
                    self.scabbs = self.scabbs + 1;
                    self.next_scabbs = self.next_scabbs + 1;
                }
            },
            _ => {},
        }
    }

    /// How many minions are left in the deck.
    fn minions_in_deck(&self) -> (r: usize)
        ensures
            r == count_minions(self@.deck),
    {
        let mut n: usize = 0;
        let mut i: usize = 0;
        while i < self.deck.len()
            invariant
                i <= self.deck@.len(),
                n == count_minions(self.deck@.take(i as int)),
                n <= i,
            decreases self.deck@.len() - i,
        {
            assert(self.deck@.take(i as int + 1).drop_last() =~= self.deck@.take(i as int));
            if self.deck[i].minion() {
                n = n + 1;
            }
            i = i + 1;
        }
        assert(self.deck@.take(i as int) =~= self.deck@);
        n
    }

    /// Whether the board holds a minion of kind `c`.
    fn board_has(&self, c: Card) -> (r: bool)
        ensures
            r == self@.board.contains(c),
    {
        let mut i: usize = 0;
        while i < self.board.len()
            invariant
                i <= self.board@.len(),
                forall|j: int| 0 <= j < i ==> self.board@[j] != c,
            decreases self.board@.len() - i,
        {
            if self.board[i] == c {
                return true;
            }
            i = i + 1;
        }
        false
    }

    /// The weapon's effect: draw a card, then make a random spell of the hand
    /// that still costs something one cheaper.
    fn cutlass_effect(&mut self)
        requires
            old(self)@.wf(),
        ensures
            old(self)@.cutlass_outcome(final(self)@),
            final(self)@.wf(),
            final(self)@.storm == old(self)@.storm,
            final(self)@.turn == old(self)@.turn,
            final(self)@.deck.len() + final(self)@.hand.len() <= old(self)@.deck.len() + old(self)@.hand.len(),
            old(self)@.hand.len() <= HAND_LIMIT ==> final(self)@.hand.len() <= HAND_LIMIT,
    {
        let ghost g = self@;
        self.draw();
        let ghost m = self@;
        proof {
            lemma_drew_wf(g, m, DrawFilter::Any);
        }
        let mut candidates: Vec<usize> = Vec::new();
        let mut i: usize = 0;
        while i < self.hand.len()
            invariant
                self@ == m,
                m.wf(),
                i <= self.hand@.len(),
                forall|k: int| 0 <= k < candidates@.len() ==> #[trigger] candidates@[k] < i
                    && is_spell(self.hand@[candidates@[k] as int].card)
                    && instance_cost(self.hand@[candidates@[k] as int]) > 0,
                forall|j: int| 0 <= j < i && is_spell(self.hand@[j].card) && instance_cost(self.hand@[j]) > 0
                    ==> candidates@.contains(j as usize),
            decreases self.hand@.len() - i,
        {
            let ghost old_c = candidates@;
            proof {
                crate::rules::lemma_floor_cost(self.hand@[i as int]);
            }
            if self.hand[i].card.spell() && self.hand[i].cost() > 0 {
                candidates.push(i);
                assert(candidates@[candidates@.len() - 1] == i);
            }
            proof {
                assert forall|j: int| 0 <= j < i + 1 && is_spell(self.hand@[j].card)
                    && instance_cost(self.hand@[j]) > 0 implies candidates@.contains(j as usize) by {
                    if j < i {
                        let k = old_c.index_of(j as usize);
                        assert(candidates@[k] == j as usize);
                    } else {
                        assert(candidates@[candidates@.len() - 1] == i);
                    }
                }
            }
            i = i + 1;
        }
        match choose_index(&candidates) {
            Some(x) => {
                let ghost k = candidates@.index_of(x);
                assert(candidates@[k] == x);
                let mut ci = self.hand[x];
                ci.cost_reduction = ci.cost_reduction + 1;
                self.hand.set(x, ci);
                proof {
                    assert(self@ =~= m.discount_at(x as int));
                    assert forall|j: int| 0 <= j < self@.hand.len() implies
                        (#[trigger] self@.hand[j]).cost_reduction >= crate::rules::REDUCTION_FLOOR by {
                        assert(self@.hand[j].cost_reduction >= m.hand[j].cost_reduction);
                    }
                }
            },
            None => {
                assert forall|j: int| 0 <= j < m.hand.len() implies !(is_spell(#[trigger] m.hand[j].card)
                    && instance_cost(m.hand[j]) > 0) by {
                    if is_spell(m.hand[j].card) && instance_cost(m.hand[j]) > 0 {
                        assert(candidates@.contains(j as usize));
                    }
                }
            },
        }
    }

    /// The hand-swap effect: the hand is set aside and four borrowed cards
    /// are drawn in its place.
    fn passage_effect(&mut self)
        requires
            old(self)@.wf(),
        ensures
            old(self)@.passage_outcome(final(self)@),
            final(self)@.wf(),
            final(self)@.storm == old(self)@.storm,
            final(self)@.turn == old(self)@.turn,
            final(self)@.hand.len() <= HAND_LIMIT,
    {
        let ghost g = self@;
        let mut i: usize = 0;
        while i < self.hand.len()
            invariant
                i <= self.hand@.len(),
                self.hand@ == g.hand,
                self.passage@ == g.passage + g.hand.take(i as int),
                self@ == (GameView { passage: self.passage@, ..g }),
            decreases self.hand@.len() - i,
        {
            self.passage.push(self.hand[i]);
            assert(g.hand.take(i as int + 1) =~= g.hand.take(i as int).push(g.hand[i as int]));
            i = i + 1;
        }
        self.hand = Vec::new();
        let ghost s0 = self@;
        proof {
            assert(g.hand.take(i as int) =~= g.hand);
            assert(s0 =~= (GameView { passage: g.passage + g.hand, hand: seq![], ..g }));
            lemma_costs_fit_append(g.passage, g.hand);
        }
        self.draw();
        let ghost s1 = self@;
        self.draw();
        let ghost s2 = self@;
        self.draw();
        let ghost s3 = self@;
        self.draw();
        let ghost s4 = self@;
        proof {
            lemma_drew_wf(s0, s1, DrawFilter::Any);
            lemma_drew_wf(s1, s2, DrawFilter::Any);
            lemma_drew_wf(s2, s3, DrawFilter::Any);
            lemma_drew_wf(s3, s4, DrawFilter::Any);
            lemma_drew_none(s4, DrawFilter::Any);
            lemma_drew_step(s3, s4, s4, DrawFilter::Any, 0);
            lemma_drew_step(s2, s3, s4, DrawFilter::Any, 1);
            lemma_drew_step(s1, s2, s4, DrawFilter::Any, 2);
            lemma_drew_step(s0, s1, s4, DrawFilter::Any, 3);
        }
        let mut j: usize = 0;
        while j < self.hand.len()
            invariant
                j <= self.hand@.len(),
                self.hand@.len() == s4.hand.len(),
                self@ == s4.with_hand(self.hand@),
                forall|k: int| 0 <= k < j ==> self.hand@[k] == (CardInstance { passage: true, ..s4.hand[k] }),
                forall|k: int| j <= k < self.hand@.len() ==> self.hand@[k] == s4.hand[k],
            decreases self.hand@.len() - j,
        {
            let mut ci = self.hand[j];
            ci.passage = true;
            self.hand.set(j, ci);
            j = j + 1;
        }
        proof {
            assert(self.hand@ =~= s4.hand.map_values(|ci: CardInstance| CardInstance { passage: true, ..ci }));
            assert(costs_fit(self@.hand)) by {
                assert forall|k: int| 0 <= k < self@.hand.len() implies
                    (#[trigger] self@.hand[k]).cost_reduction >= crate::rules::REDUCTION_FLOOR by {
                    assert(self@.hand[k].cost_reduction == s4.hand[k].cost_reduction);
                }
            }
        }
    }

    /// The special effect of `c`, after the card has been paid for and placed.
    fn special_effect(&mut self, c: Card, target: Option<usize>)
        requires
            old(self)@.wf(),
            old(self)@.mana < i32::MAX,
            c == Card::Shadowstep ==> (target matches Some(t) && t < old(self)@.board.len()),
        ensures
            old(self)@.effect_outcome(c, target, final(self)@),
            final(self)@.storm == old(self)@.storm,
            final(self)@.turn == old(self)@.turn,
            final(self)@.wf(),
            c == Card::Cutlass || c == Card::Extortion ==> final(self)@.deck.len() + final(self)@.hand.len()
                <= old(self)@.deck.len() + old(self)@.hand.len(),
            old(self)@.hand.len() <= HAND_LIMIT ==> final(self)@.hand.len() <= HAND_LIMIT,
    {
        let ghost g = self@;
        match c {
            Card::Coin => {
                self.mana = self.mana + 1;
            },
            Card::Potion => {
                let mut cis: Vec<CardInstance> = Vec::new();
                let mut i: usize = 0;
                while i < self.board.len()
                    invariant
                        self@ == g,
                        i <= self.board@.len(),
                        cis@ =~= self.board@.take(i as int).map_values(|b: Card| potion_copy(b)),
                    decreases self.board@.len() - i,
                {
                    let mut ci = CardInstance::new(&self.board[i]);
                    ci.potion = true;
                    cis.push(ci);
                    i = i + 1;
                    assert(cis@ =~= self.board@.take(i as int).map_values(|b: Card| potion_copy(b)));
                }
                assert(self.board@.take(i as int) =~= self.board@);
                proof {
                    assert forall|k: int| 0 <= k < cis@.len() implies
                        (#[trigger] cis@[k]).cost_reduction >= crate::rules::REDUCTION_FLOOR by {
                        assert(cis@[k].cost_reduction == 0);
                    }
                    lemma_costs_fit_append(g.hand, cis@);
                    lemma_capped_len(g.hand, cis@);
                }
                self.add_card_instances_to_hand(cis);
            },
            Card::Preparation => {
                self.prep_pending = true;
            },
            Card::Shadowstep => {
                let t = target.unwrap();
                let target_card = self.board.remove(t);
                let mut ci = CardInstance::new(&target_card);
                ci.cost_reduction = 2;
                proof {
                    lemma_fresh_costs_fit(target_card);
                    lemma_costs_fit_append(g.hand, seq![ci]);
                    lemma_capped_len(g.hand, seq![ci]);
                }
                self.add_card_instance_to_hand(ci);
                assert(self@ =~= g.fixed_effect(c, target));
            },
            Card::Shroud => {
                if self.minions_in_deck() <= 2 {
                    proof {
                        lemma_draw_first_wf(g, DrawFilter::Minion);
                        lemma_draw_first_wf(g.draw_first(DrawFilter::Minion), DrawFilter::Minion);
                    }
                    self.draw_first_minion();
                    self.draw_first_minion();
                } else {
                    self.draw_minion();
                    let ghost m1 = self@;
                    self.draw_minion();
                    proof {
                        lemma_drew_wf(g, m1, DrawFilter::Minion);
                        lemma_drew_wf(m1, self@, DrawFilter::Minion);
                        lemma_drew_none(self@, DrawFilter::Minion);
                        lemma_drew_step(m1, self@, self@, DrawFilter::Minion, 0);
                        lemma_drew_step(g, m1, self@, DrawFilter::Minion, 1);
                    }
                }
            },
            Card::Swindle => {
                self.draw_spell();
                let ghost m1 = self@;
                proof {
                    lemma_drew_wf(g, m1, DrawFilter::Spell);
                }
                if self.storm > 0 {
                    self.draw_minion();
                    proof {
                        lemma_drew_wf(m1, self@, DrawFilter::Minion);
                        assert(g.drew(m1, DrawFilter::Spell) && m1.drew(self@, DrawFilter::Minion));
                    }
                }
            },
            Card::Door => {
                self.draw_spell();
                proof {
                    lemma_drew_wf(g, self@, DrawFilter::Spell);
                }
            },
            Card::Extortion => {
                self.draw();
                proof {
                    lemma_drew_wf(g, self@, DrawFilter::Any);
                }
            },
            Card::Cutlass => {
                self.cutlass_effect();
            },
            Card::GoneFishin => {
                if self.deck.len() <= 3 {
                    self.fish = self.deck.clone();
                    assert(self.fish@ =~= self.deck@);
                } else {
                    self.fish = choose_cards(&self.deck, 3);
                }
            },
            Card::SecretPassage => {
                self.passage_effect();
            },
            _ => {},
        }
    }

    /// Plays a card: pays for it, resolves its battlecry (twice with the
    /// doubler on board) and its special effect, and counts it towards storm.
    pub fn play(&mut self, play: &Play)
        requires
            old(self)@.wf(),
            old(self)@.has_room(),
            old(self)@.legal_play(*play),
        ensures
            old(self)@.play_outcome(*play, final(self)@),
            old(self)@.is_fixed_card(old(self)@.hand[play.index as int].card) ==> final(self)@
                == old(self)@.play_fixed(*play),
            final(self)@.wf(),
            final(self)@.turn == old(self)@.turn,
            final(self)@.storm == old(self)@.storm_after(old(self)@.hand[play.index as int].card),
            is_trade_card(old(self)@.hand[play.index as int].card) ==> final(self)@.deck.len()
                + final(self)@.hand.len() < old(self)@.deck.len() + old(self)@.hand.len(),
            final(self)@.hand.len() <= HAND_LIMIT,
            final(self)@.board.len() <= BOARD_LIMIT,
    {
        let ghost g0 = self@;
        let card = self.hand[play.index];
        let c = card.card;
        let cost = self.cost(play.index);
        self.mana = self.mana - cost;
        self.hand.remove(play.index);
        self.scabbs = self.next_scabbs;
        self.next_scabbs = 0;
        let ghost ga = self@;
        proof {
            assert(ga =~= g0.pay(*play));
            lemma_costs_fit_remove(g0.hand, play.index as int);
        }
        if c == Card::Tenwu {
            let t = play.target.unwrap();
            let target_card = self.board[t];
            let mut ci = CardInstance::new(&target_card);
            ci.tenwu = true;
            proof {
                lemma_fresh_costs_fit(target_card);
                lemma_costs_fit_append(ga.hand, seq![ci]);
                lemma_capped_len(ga.hand, seq![ci]);
            }
            self.add_card_instance_to_hand(ci);
            self.board.remove(t);
            assert(self@ =~= ga.bounce(t as int));
        }
        let ghost gb = self@;
        if c.minion() {
            self.board.push(c);
        } else if c.spell() {
            self.prep_pending = false;
        }
        if c.combo() {
            self.foxy = 0;
        }
        let ghost gd = self@;
        assert(gd =~= (if is_combo(c) { GameView { foxy: 0, ..gb.place(c) } } else { gb.place(c) }));
        self.come_into_play(&c);
        if self.board_has(Card::Shark) {
            proof {
                if c == Card::Dancer {
                    lemma_fresh_costs_fit(Card::Coin);
                    lemma_costs_fit_append(gd.hand, seq![fresh(Card::Coin)]);
                    lemma_capped_len(gd.hand, seq![fresh(Card::Coin)]);
                }
            }
            self.come_into_play(&c);
        }
        let ghost gm = self@;
        proof {
            assert(gm == g0.before_effect(*play));
            if c == Card::Dancer {
                lemma_fresh_costs_fit(Card::Coin);
                lemma_costs_fit_append(gd.hand, seq![fresh(Card::Coin)]);
                let once = gd.battlecry(c);
                lemma_costs_fit_append(once.hand, seq![fresh(Card::Coin)]);
                lemma_capped_len(gd.hand, seq![fresh(Card::Coin)]);
                lemma_capped_len(once.hand, seq![fresh(Card::Coin)]);
            }
        }
        self.special_effect(c, play.target);
        let ghost ge = self@;
        if !c.is_trade() {
            self.storm = self.storm + 1;
        }
        proof {
            assert(ge =~= (GameView { storm: gm.storm, ..self@ }));
        }
    }

    /// Whether the turn may end now: not while a choice is pending.
    pub fn can_end_turn(&self) -> (r: bool)
        ensures
            r == (self@.fish.len() == 0),
    {
        self.fish.len() == 0
    }

    /// Ends the turn and starts the next one: borrowed cards go back to the
    /// deck, the set-aside hand comes back (cards past the hand limit are
    /// discarded), the turn's counters reset, mana
    /// refills to `min(10, turn)` and one card is drawn.
    pub fn end_turn(&mut self)
        requires
            old(self)@.wf(),
            old(self)@.has_room(),
            old(self)@.fish.len() == 0,
        ensures
            old(self)@.end_turn_outcome(final(self)@),
            final(self)@.wf(),
            final(self)@.hand.len() <= HAND_LIMIT,
    {
        let ghost g = self@;
        let mut all: Vec<CardInstance> = Vec::new();
        let mut i: usize = 0;
        while i < self.hand.len()
            invariant
                self@ == g,
                i <= self.hand@.len(),
                all@ =~= g.hand.take(i as int).map_values(|ci: CardInstance| CardInstance { tenwu: false, ..ci }),
            decreases self.hand@.len() - i,
        {
            let mut ci = self.hand[i];
            ci.tenwu = false;
            all.push(ci);
            i = i + 1;
            assert(all@ =~= g.hand.take(i as int).map_values(|ci: CardInstance| CardInstance { tenwu: false, ..ci }));
        }
        assert(g.hand.take(i as int) =~= g.hand);
        let ghost cleared = all@;
        let mut k: usize = 0;
        while k < self.passage.len()
            invariant
                self@ == g,
                k <= self.passage@.len(),
                all@ =~= cleared + g.passage.take(k as int),
            decreases self.passage@.len() - k,
        {
            all.push(self.passage[k]);
            k = k + 1;
            assert(all@ =~= cleared + g.passage.take(k as int));
        }
        assert(g.passage.take(k as int) =~= g.passage);
        let ghost every = all@;
        let mut new_hand: Vec<CardInstance> = Vec::new();
        let mut j: usize = 0;
        while j < all.len()
            invariant
                all@ == every,
                j <= every.len(),
                new_hand@ == crate::rules::keep_owned(every.take(j as int)),
                self.deck@ == g.deck + crate::rules::borrowed_cards(every.take(j as int)),
                self@ == (GameView { deck: self.deck@, ..g }),
            decreases every.len() - j,
        {
            assert(every.take(j as int + 1).drop_last() =~= every.take(j as int));
            let ci = all[j];
            if ci.passage {
                self.deck.push(ci.card);
            } else {
                new_hand.push(ci);
            }
            j = j + 1;
            assert(self.deck@ =~= g.deck + crate::rules::borrowed_cards(every.take(j as int)));
        }
        assert(every.take(j as int) =~= every);
        let ghost kept = new_hand@;
        self.hand = Vec::new();
        self.add_card_instances_to_hand(new_hand);
        self.passage = Vec::new();
        self.foxy = 0;
        self.scabbs = 0;
        self.next_scabbs = 0;
        self.prep_pending = false;
        self.storm = 0;
        self.turn = self.turn + 1;
        self.mana = if self.turn < 10 { self.turn } else { 10 };
        let ghost n = self@;
        proof {
            assert(n =~= g.next_turn());
            assert(costs_fit(every)) by {
                assert forall|x: int| 0 <= x < every.len() implies
                    (#[trigger] every[x]).cost_reduction >= crate::rules::REDUCTION_FLOOR by {
                    if x < cleared.len() {
                        assert(every[x].cost_reduction == g.hand[x].cost_reduction);
                    } else {
                        assert(every[x] == g.passage[x - cleared.len()]);
                    }
                }
            }
            crate::rules::lemma_keep_owned_fits(every);
            lemma_costs_fit_append(seq![], kept);
            lemma_capped_len(seq![], kept);
        }
        self.draw();
        proof {
            lemma_drew_wf(n, self@, DrawFilter::Any);
        }
    }

    /// Every legal move: one choice per offered card while a choice is
    /// pending; else ending the turn, then each playable card of the hand in
    /// order, once per board target if it needs one.
    pub fn actions(&self) -> (r: Vec<Action>)
        requires
            self@.wf(),
        ensures
            r@ == legal_actions(self@),
    {
        if self.fish.len() > 0 {
            let mut answer: Vec<Action> = Vec::new();
            let mut i: usize = 0;
            while i < self.fish.len()
                invariant
                    i <= self.fish@.len(),
                    answer@ =~= Seq::new(i as nat, |k: int| Action::Choose(k as usize)),
                decreases self.fish@.len() - i,
            {
                answer.push(Action::Choose(i));
                i = i + 1;
                assert(answer@ =~= Seq::new(i as nat, |k: int| Action::Choose(k as usize)));
            }
            return answer;
        }
        let mut answer: Vec<Action> = vec![Action::EndTurn];
        let mut index: usize = 0;
        while index < self.hand.len()
            invariant
                self@.wf(),
                self@.fish.len() == 0,
                index <= self@.hand.len(),
                answer@ =~= seq![Action::EndTurn] + plays_upto(self@, index as int),
            decreases self@.hand.len() - index,
        {
            let ghost before = answer@;
            if self.can_play(index) {
                if self.hand[index].card.must_target() {
                    let mut target: usize = 0;
                    while target < self.board.len()
                        invariant
                            self@.wf(),
                            index < self@.hand.len(),
                            target <= self@.board.len(),
                            answer@ =~= before + Seq::new(target as nat, |t: int|
                                Action::Play(Play { index: index, target: Some(t as usize) })),
                        decreases self@.board.len() - target,
                    {
                        answer.push(Action::Play(Play { index, target: Some(target) }));
                        target = target + 1;
                        assert(answer@ =~= before + Seq::new(target as nat, |t: int|
                            Action::Play(Play { index: index, target: Some(t as usize) })));
                    }
                } else {
                    answer.push(Action::Play(Play { index, target: None }));
                }
            }
            assert(answer@ =~= before + plays_for(self@, index as int));
            index = index + 1;
            assert(answer@ =~= seq![Action::EndTurn] + plays_upto(self@, index as int));
        }
        answer
    }

    /// The legal plays of cards, in the order of `actions`.
    pub fn plays(&self) -> (r: Vec<Play>)
        requires
            self@.wf(),
        ensures
            r@ == plays_of(legal_actions(self@)),
    {
        let actions = self.actions();
        let mut r: Vec<Play> = Vec::new();
        let mut i: usize = 0;
        while i < actions.len()
            invariant
                i <= actions@.len(),
                r@ == plays_of(actions@.take(i as int)),
            decreases actions@.len() - i,
        {
            assert(actions@.take(i as int + 1).drop_last() =~= actions@.take(i as int));
            match actions[i] {
                Action::Play(p) => r.push(p),
                _ => {},
            }
            i = i + 1;
        }
        assert(actions@.take(i as int) =~= actions@);
        r
    }

    /// The legal moves kept for exploration: no minion and no return spell,
    /// which are saved for the kill turn.
    pub fn non_kill_actions(&self) -> (r: Vec<Action>)
        requires
            self@.wf(),
        ensures
            r@ == keep_non_kill(self@, legal_actions(self@)),
    {
        let actions = self.actions();
        proof {
            self.lemma_lengths();
            lemma_legal_actions(self@);
        }
        let mut r: Vec<Action> = Vec::new();
        let mut i: usize = 0;
        while i < actions.len()
            invariant
                actions@ == legal_actions(self@),
                forall|k: int| 0 <= k < actions@.len() ==> self@.legal_action(#[trigger] actions@[k]),
                i <= actions@.len(),
                r@ == keep_non_kill(self@, actions@.take(i as int)),
            decreases actions@.len() - i,
        {
            assert(actions@.take(i as int + 1).drop_last() =~= actions@.take(i as int));
            let a = actions[i];
            assert(self@.legal_action(actions@[i as int]));
            let keep = match a {
                Action::Play(p) => {
                    let card = self.hand[p.index].card;
                    !card.minion() && card != Card::Shadowstep
                },
                _ => true,
            };
            if keep {
                r.push(a);
            }
            i = i + 1;
        }
        assert(actions@.take(i as int) =~= actions@);
        r
    }

    /// The legal plays whose card has one possible result, in the order of
    /// `actions`: the moves that the deterministic search tries.
    pub fn deterministic_plays(&self) -> (r: Vec<Play>)
        requires
            self@.wf(),
        ensures
            r@ == fixed_plays_of(self@, legal_actions(self@)),
    {
        let actions = self.actions();
        proof {
            self.lemma_lengths();
            lemma_legal_actions(self@);
        }
        let minions = self.minions_in_deck();
        let mut r: Vec<Play> = Vec::new();
        let mut i: usize = 0;
        while i < actions.len()
            invariant
                actions@ == legal_actions(self@),
                forall|k: int| 0 <= k < actions@.len() ==> self@.legal_action(#[trigger] actions@[k]),
                minions == count_minions(self@.deck),
                i <= actions@.len(),
                r@ == fixed_plays_of(self@, actions@.take(i as int)),
            decreases actions@.len() - i,
        {
            assert(actions@.take(i as int + 1).drop_last() =~= actions@.take(i as int));
            assert(self@.legal_action(actions@[i as int]));
            match actions[i] {
                Action::Play(p) => {
                    let fixed = match self.hand[p.index].card {
                        Card::GoneFishin | Card::SecretPassage | Card::Swindle | Card::Door
                        | Card::Cutlass | Card::Extortion => false,
                        Card::Shroud => minions <= 2,
                        _ => true,
                    };
                    if fixed {
                        r.push(p);
                    }
                },
                _ => {},
            }
            i = i + 1;
        }
        assert(actions@.take(i as int) =~= actions@);
        r
    }

    /// Plays the first copy of `card` in hand onto the first minion `target`
    /// of the board. The play must be legal.
    pub fn play_card(&mut self, card: &Card, target: Option<Card>)
        requires
            old(self)@.wf(),
            old(self)@.has_room(),
            crate::rules::hand_position(old(self)@.hand, *card, 0) >= 0,
            target matches Some(t) ==> first_match_from(old(self)@.board, DrawFilter::Exactly(t), 0) >= 0,
            old(self)@.legal_play(old(self)@.card_play(*card, target)),
        ensures
            old(self)@.play_outcome(old(self)@.card_play(*card, target), final(self)@),
            final(self)@.wf(),
    {
        let mut index: usize = 0;
        while index < self.hand.len() && self.hand[index].card != *card
            invariant
                index <= self.hand@.len(),
                crate::rules::hand_position(self.hand@, *card, 0) == crate::rules::hand_position(self.hand@, *card, index as int),
            decreases self.hand@.len() - index,
        {
            index = index + 1;
        }
        let move_target = match target {
            Some(t) => {
                let mut k: usize = 0;
                while k < self.board.len() && self.board[k] != t
                    invariant
                        k <= self.board@.len(),
                        first_match_from(self.board@, DrawFilter::Exactly(t), 0)
                            == first_match_from(self.board@, DrawFilter::Exactly(t), k as int),
                    decreases self.board@.len() - k,
                {
                    k = k + 1;
                }
                Some(k)
            },
            None => None,
        };
        let play = Play { index, target: move_target };
        assert(play == self@.card_play(*card, target));
        self.play(&play);
    }

    /// A fresh game at turn 0 with the given mana, opponent's life, hand (up
    /// to ten cards) and deck.
    pub fn from_position(mana: i32, life: i32, hand: Vec<Card>, deck: Vec<Card>) -> (r: Game)
        ensures
            r@ == position(mana as int, life as int, hand@, deck@),
            0 <= mana ==> r@.wf(),
    {
        let mut game = Game::new();
        game.mana = mana;
        game.life = life;
        let ghost hv = hand@;
        game.add_cards_to_hand(hand);
        game.deck = deck;
        assert(game@ =~= position(mana as int, life as int, hv, game.deck@));
        proof {
            let cis = hv.map_values(|c: Card| fresh(c));
            assert(crate::rules::costs_fit(cis)) by {
                assert forall|i: int| 0 <= i < cis.len() implies (#[trigger] cis[i]).cost_reduction
                    >= crate::rules::REDUCTION_FLOOR by {
                    assert(cis[i] == fresh(hv[i]));
                }
            }
            lemma_costs_fit_append(seq![], cis);
            lemma_capped_len(seq![], cis);
        }
        game
    }

    /// An empty game, at 30 life, whose deck holds `deck`.
    fn with_deck(deck: &[Card]) -> (r: Game)
        ensures
            r@ == opening(deck@),
            r@.wf(),
    {
        let mut game = Game::new();
        let mut i: usize = 0;
        while i < deck.len()
            invariant
                i <= deck@.len(),
                game@ == (GameView { deck: deck@.take(i as int), ..opening(deck@) }),
            decreases deck@.len() - i,
        {
            game.deck.push(deck[i]);
            i = i + 1;
            assert(game@ =~= (GameView { deck: deck@.take(i as int), ..opening(deck@) }));
        }
        assert(deck@.take(i as int) =~= deck@);
        assert(game@ =~= opening(deck@));
        game
    }

    /// The game of the player going first: three cards drawn, then the first
    /// turn begins.
    pub fn new_going_first(deck: &[Card]) -> (r: Game)
        ensures
            first_opening(deck@, r@),
            r@.wf(),
            r@.turn == 1,
            r@.mana == 1,
            r@.hand.len() <= HAND_LIMIT,
    {
        let mut game = Game::with_deck(deck);
        let ghost s0 = game@;
        game.draw();
        let ghost s1 = game@;
        game.draw();
        let ghost s2 = game@;
        game.draw();
        let ghost s3 = game@;
        proof {
            lemma_drew_wf(s0, s1, DrawFilter::Any);
            lemma_drew_wf(s1, s2, DrawFilter::Any);
            lemma_drew_wf(s2, s3, DrawFilter::Any);
            lemma_drew_none(s3, DrawFilter::Any);
            lemma_drew_step(s2, s3, s3, DrawFilter::Any, 0);
            lemma_drew_step(s1, s2, s3, DrawFilter::Any, 1);
            lemma_drew_step(s0, s1, s3, DrawFilter::Any, 2);
        }
        game.end_turn();
        game
    }

    /// The game of the player going second: four cards and a coin, then the
    /// first turn begins.
    pub fn new_going_second(deck: &[Card]) -> (r: Game)
        ensures
            second_opening(deck@, r@),
            r@.wf(),
            r@.turn == 1,
            r@.mana == 1,
            r@.hand.len() <= HAND_LIMIT,
    {
        let mut game = Game::with_deck(deck);
        let ghost s0 = game@;
        game.draw();
        let ghost s1 = game@;
        game.draw();
        let ghost s2 = game@;
        game.draw();
        let ghost s3 = game@;
        game.draw();
        let ghost s4 = game@;
        proof {
            lemma_drew_wf(s0, s1, DrawFilter::Any);
            lemma_drew_wf(s1, s2, DrawFilter::Any);
            lemma_drew_wf(s2, s3, DrawFilter::Any);
            lemma_drew_wf(s3, s4, DrawFilter::Any);
            lemma_drew_none(s4, DrawFilter::Any);
            lemma_drew_step(s3, s4, s4, DrawFilter::Any, 0);
            lemma_drew_step(s2, s3, s4, DrawFilter::Any, 1);
            lemma_drew_step(s1, s2, s4, DrawFilter::Any, 2);
            lemma_drew_step(s0, s1, s4, DrawFilter::Any, 3);
            lemma_fresh_costs_fit(Card::Coin);
            lemma_costs_fit_append(s4.hand, seq![fresh(Card::Coin)]);
            lemma_capped_len(s4.hand, seq![fresh(Card::Coin)]);
        }
        game.add_card_to_hand(&Card::Coin);
        game.end_turn();
        game
    }

    /// The game of a player going first or second at random.
    pub fn new_going_random(deck: &[Card]) -> (r: Game)
        ensures
            first_opening(deck@, r@) || second_opening(deck@, r@),
            r@.wf(),
            r@.turn == 1,
            r@.mana == 1,
            r@.hand.len() <= HAND_LIMIT,
    {
        if coin_flip() {
            Game::new_going_first(deck)
        } else {
            Game::new_going_second(deck)
        }
    }

    /// Applies a legal move.
    pub fn take_action(&mut self, action: &Action)
        requires
            old(self)@.wf(),
            old(self)@.has_room(),
            old(self)@.legal_action(*action),
        ensures
            old(self)@.action_outcome(*action, final(self)@),
            final(self)@.wf(),
            old(self)@.makes_progress(final(self)@),
            final(self)@.hand.len() <= HAND_LIMIT,
            final(self)@.board.len() <= BOARD_LIMIT,
    {
        match action {
            Action::Play(p) => self.play(p),
            Action::Choose(i) => {
                let ghost g = self@;
                let card = self.fish[*i];
                self.draw_specific(&card);
                self.fish.clear();
                proof {
                    lemma_drew_wf(g, GameView { fish: g.fish, ..self@ }, DrawFilter::Exactly(card));
                    assert(self@ =~= (GameView { fish: seq![], ..self@ }));
                }
            },
            Action::EndTurn => self.end_turn(),
        }
    }

    pub fn add_card_to_hand(&mut self, card: &Card)
        ensures
            final(self)@ == old(self)@.add_instances(seq![fresh(*card)]),
    {
        self.add_card_instance_to_hand(CardInstance::new(card));
    }
}

/// The names of the cards, separated by commas.
pub open spec fn cards_text(s: Seq<Card>) -> Seq<char>
    decreases s.len(),
{
    if s.len() == 0 {
        seq![]
    } else if s.len() == 1 {
        card_name(s[0])
    } else {
        cards_text(s.drop_last()) + ", "@ + card_name(s.last())
    }
}

/// The instances as shown to a player, separated by commas.
pub open spec fn hand_text(s: Seq<CardInstance>) -> Seq<char>
    decreases s.len(),
{
    if s.len() == 0 {
        seq![]
    } else if s.len() == 1 {
        instance_text(s[0])
    } else {
        hand_text(s.drop_last()) + ", "@ + instance_text(s.last())
    }
}

/// A play as shown to a player: the card, then its target.
pub open spec fn play_text(v: GameView, p: Play) -> Seq<char> {
    instance_text(v.hand[p.index as int]) + match p.target {
        Some(t) => " -> "@ + card_name(v.board[t as int]),
        None => seq![],
    }
}

/// A line `label` + `value` + newline, shown only when the counter is positive.
pub open spec fn counter_line(label: Seq<char>, value: int) -> Seq<char> {
    if value > 0 { label + signed_decimal(value) + "\n"@ } else { seq![] }
}

/// Appends `label`, the value and a newline when the value is positive.
fn append_counter(s: &mut String, label: &str, value: i32)
    ensures
        final(s)@ == old(s)@ + counter_line(label@, value as int),
{
    if value > 0 {
        s.append(label);
        append_signed(s, value);
        s.append("\n");
        assert(final(s)@ =~= old(s)@ + counter_line(label@, value as int));
    } else {
        assert(final(s)@ =~= old(s)@ + counter_line(label@, value as int));
    }
}

/// The state as shown to a player.
pub open spec fn state_text(v: GameView) -> Seq<char> {
    "board: "@ + cards_text(v.board) + "\nhand: "@ + hand_text(v.hand) + "\nlife: "@
        + signed_decimal(v.life) + "\nmana: "@ + signed_decimal(v.mana) + "\n"@
        + counter_line("storm: "@, v.storm)
        + counter_line("foxy: "@, v.foxy)
        + counter_line("scabbs: "@, v.scabbs)
        + counter_line("next_scabbs: "@, v.next_scabbs)
        + (if v.prep_pending { "prep_pending\n"@ } else { seq![] })
}

/// An empty game at turn 0, at 30 life, whose deck holds `deck`.
pub open spec fn opening(deck: Seq<Card>) -> GameView {
    GameView {
        board: seq![],
        hand: seq![],
        passage: seq![],
        life: 30,
        mana: 0,
        storm: 0,
        foxy: 0,
        scabbs: 0,
        next_scabbs: 0,
        deck,
        turn: 0,
        prep_pending: false,
        fish: seq![],
    }
}

/// `v` is a possible game of the player going first with `deck`.
pub open spec fn first_opening(deck: Seq<Card>, v: GameView) -> bool {
    exists|m: GameView| #[trigger] opening(deck).drew_n(m, DrawFilter::Any, 3) && m.end_turn_outcome(v)
}

/// `v` is a possible game of the player going second with `deck`.
pub open spec fn second_opening(deck: Seq<Card>, v: GameView) -> bool {
    exists|m: GameView| #[trigger] opening(deck).drew_n(m, DrawFilter::Any, 4)
        && m.add_instances(seq![fresh(Card::Coin)]).end_turn_outcome(v)
}

/// A fresh game at turn 0 with the given mana, opponent's life, hand and deck.
pub open spec fn position(mana: int, life: int, hand: Seq<Card>, deck: Seq<Card>) -> GameView {
    GameView {
        board: seq![],
        hand: capped_append(seq![], hand.map_values(|c: Card| fresh(c))),
        passage: seq![],
        life,
        mana,
        storm: 0,
        foxy: 0,
        scabbs: 0,
        next_scabbs: 0,
        deck,
        turn: 0,
        prep_pending: false,
        fish: seq![],
    }
}

/// Checks that `life` is exactly the largest opponent's life that plays of
/// fixed cards win from the position with this mana, hand and deck: a win is
/// found at `life` and none exists at `life + 1`, hence none above. Each
/// search gets one second; a search that runs out of time makes the check
/// fail.
pub fn assert_exact_win_with_deck(mana: i32, life: i32, hand: Vec<Card>, deck: Vec<Card>) -> (r: bool)
    requires
        0 <= mana < crate::rules::COUNTER_ROOM,
        -crate::rules::LIFE_ROOM < life < i32::MAX,
    ensures
        r ==> has_fixed_win(position(mana as int, life as int, hand@, deck@)),
        r ==> forall|l: int| l > life ==> !#[trigger] has_fixed_win(position(mana as int, l, hand@, deck@)),
{
    let ghost hv = hand@;
    let ghost dv = deck@;
    let mut game = Game::from_position(mana, life, hand, deck);
    let first = game.find_deterministic_win(1000);
    match first {
        Plan::Win(plays) => {
            proof {
                assert(wins_with(game@, plays@));
                assert(has_fixed_win(game@));
            }
        },
        _ => {
            return false;
        },
    }
    game.life = life + 1;
    assert(game@ =~= position(mana as int, life + 1, hv, dv));
    match game.find_deterministic_win(1000) {
        Plan::Lose => {
            proof {
                let v = position(mana as int, life as int, hv, dv);
                assert(crate::laws::with_life(v, v.life + 1) == position(mana as int, life + 1, hv, dv));
                assert forall|l: int| l > life implies !#[trigger] has_fixed_win(position(mana as int, l, hv, dv)) by {
                    crate::laws::lemma_no_win_above(v, l);
                    assert(crate::laws::with_life(v, l) == position(mana as int, l, hv, dv));
                }
            }
            true
        },
        _ => false,
    }
}

/// Checks that `life` is exactly the largest opponent's life that plays of
/// fixed cards win from a position with this mana and hand and an empty deck.
pub fn assert_exact_win(mana: i32, life: i32, hand: Vec<Card>) -> (r: bool)
    requires
        0 <= mana < crate::rules::COUNTER_ROOM,
        -crate::rules::LIFE_ROOM < life < i32::MAX,
    ensures
        r ==> has_fixed_win(position(mana as int, life as int, hand@, seq![])),
        r ==> forall|l: int| l > life ==> !#[trigger] has_fixed_win(position(mana as int, l, hand@, seq![])),
{
    let deck: Vec<Card> = Vec::new();
    assert(deck@ =~= seq![]);
    assert_exact_win_with_deck(mana, life, hand, deck)
}

} // verus!
