//! The card catalog: every card kind with its fixed attributes, and the
//! per-instance modifiers that a card in hand can carry.
use vstd::prelude::*;

use vstd::string::StringExecFns;

use crate::text::{append_decimal, decimal, str_eq};

verus! {

/// The cost given to a card whose kind is not known.
pub const UNKNOWN_COST: i32 = 20;

/// Every card kind that the engine handles.
#[derive(Copy, Clone, Debug, PartialEq, Eq, Hash, Structural)]
pub enum Card {
    BoneSpike,
    Cloak,
    Coin,
    Cutlass,
    Dancer,
    Door,
    Evasion,
    Extortion,
    Foxy,
    GoneFishin,
    Pillager,
    Potion,
    Preparation,
    Scabbs,
    SecretPassage,
    Shadowstep,
    Shark,
    Shroud,
    Swindle,
    Tenwu,
    Unknown,
}

/// The printed mana cost of a card kind.
pub open spec fn base_cost(c: Card) -> int {
    match c {
        Card::BoneSpike => 2,
        Card::Cloak => 4,
        Card::Coin => 0,
        Card::Cutlass => 1,
        Card::Dancer => 2,
        Card::Door => 1,
        Card::Evasion => 2,
        Card::Extortion => 1,
        Card::Foxy => 2,
        Card::GoneFishin => 1,
        Card::Pillager => 6,
        Card::Potion => 4,
        Card::Preparation => 0,
        Card::Scabbs => 4,
        Card::SecretPassage => 1,
        Card::Shadowstep => 0,
        Card::Shark => 4,
        Card::Shroud => 3,
        Card::Swindle => 2,
        Card::Tenwu => 2,
        Card::Unknown => UNKNOWN_COST as int,
    }
}

pub open spec fn is_minion(c: Card) -> bool {
    matches!(c, Card::Dancer | Card::Foxy | Card::Pillager | Card::Scabbs | Card::Shark | Card::Tenwu)
}

pub open spec fn is_spell(c: Card) -> bool {
    matches!(c, Card::BoneSpike | Card::Cloak | Card::Coin | Card::Door | Card::Evasion
        | Card::Extortion | Card::GoneFishin | Card::Potion | Card::Preparation
        | Card::SecretPassage | Card::Shadowstep | Card::Shroud | Card::Swindle)
}

pub open spec fn is_weapon(c: Card) -> bool {
    c == Card::Cutlass
}

/// Combo cards are discounted by foxy stacks and reset them when played.
pub open spec fn is_combo(c: Card) -> bool {
    c == Card::Pillager || c == Card::Scabbs
}

/// Cards that must be played onto a minion of the board.
pub open spec fn needs_target(c: Card) -> bool {
    c == Card::Shadowstep || c == Card::Tenwu
}

/// Trade cards do not count towards storm.
pub open spec fn is_trade_card(c: Card) -> bool {
    c == Card::Cutlass || c == Card::Extortion
}

/// The name under which a card kind appears in the game client.
pub open spec fn card_name(c: Card) -> Seq<char> {
    match c {
        Card::BoneSpike => "Serrated Bone Spike"@,
        Card::Cloak => "Cloak of Shadows"@,
        Card::Coin => "The Coin"@,
        Card::Cutlass => "Blackwater Cutlass"@,
        Card::Dancer => "Mailbox Dancer"@,
        Card::Door => "Door of Shadows"@,
        Card::Evasion => "Evasion"@,
        Card::Extortion => "SI:7 Extortion"@,
        Card::Foxy => "Foxy Fraud"@,
        Card::GoneFishin => "Gone Fishin'"@,
        Card::Pillager => "Spectral Pillager"@,
        Card::Potion => "Potion of Illusion"@,
        Card::Preparation => "Preparation"@,
        Card::Scabbs => "Scabbs Cutterbutter"@,
        Card::SecretPassage => "Secret Passage"@,
        Card::Shadowstep => "Shadowstep"@,
        Card::Shark => "Spirit of the Shark"@,
        Card::Shroud => "Shroud of Concealment"@,
        Card::Swindle => "Swindle"@,
        Card::Tenwu => "Tenwu of the Red Smoke"@,
        Card::Unknown => "Unknown"@,
    }
}

/// The card kind that a client card id stands for.
pub open spec fn card_for_id(s: Seq<char>) -> Card {
    if s == "REV_939"@ { Card::BoneSpike }
    else if s == "DMF_512"@ { Card::Cloak }
    else if s == "GAME_005"@ || s == "CFM_630"@ { Card::Coin }
    else if s == "DED_004"@ { Card::Cutlass }
    else if s == "SW_070"@ { Card::Dancer }
    else if s == "REV_938"@ { Card::Door }
    else if s == "LOOT_214"@ { Card::Evasion }
    else if s == "SW_412"@ { Card::Extortion }
    else if s == "DMF_511"@ { Card::Foxy }
    else if s == "TSC_916"@ { Card::GoneFishin }
    else if s == "ICC_910"@ { Card::Pillager }
    else if s == "SCH_352"@ { Card::Potion }
    else if s == "CORE_EX1_145"@ { Card::Preparation }
    else if s == "BAR_552"@ { Card::Scabbs }
    else if s == "SCH_305"@ { Card::SecretPassage }
    else if s == "CORE_EX1_144"@ { Card::Shadowstep }
    else if s == "WC_016"@ { Card::Shroud }
    else if s == "TRL_092"@ { Card::Shark }
    else if s == "DMF_515"@ { Card::Swindle }
    else if s == "DMF_071"@ { Card::Tenwu }
    else { Card::Unknown }
}

/// The card kind whose client name is `s`; two extra names are accepted, and
/// any other name stands for an unknown card.
pub open spec fn card_for_name(s: Seq<char>) -> Card {
    if s == "Serrated Bone Spike"@ { Card::BoneSpike }
    else if s == "Cloak of Shadows"@ { Card::Cloak }
    else if s == "The Coin"@ || s == "Counterfeit Coin"@ { Card::Coin }
    else if s == "Blackwater Cutlass"@ { Card::Cutlass }
    else if s == "Mailbox Dancer"@ { Card::Dancer }
    else if s == "Door of Shadows"@ { Card::Door }
    else if s == "Evasion"@ { Card::Evasion }
    else if s == "SI:7 Extortion"@ { Card::Extortion }
    else if s == "Foxy Fraud"@ { Card::Foxy }
    else if s == "Gone Fishin'"@ { Card::GoneFishin }
    else if s == "Spectral Pillager"@ { Card::Pillager }
    else if s == "Potion of Illusion"@ { Card::Potion }
    else if s == "Preparation"@ { Card::Preparation }
    else if s == "Scabbs Cutterbutter"@ { Card::Scabbs }
    else if s == "Secret Passage"@ { Card::SecretPassage }
    else if s == "Shadowstep"@ { Card::Shadowstep }
    else if s == "Spirit of the Shark"@ { Card::Shark }
    else if s == "Shroud of Concealment"@ { Card::Shroud }
    else if s == "Swindle"@ { Card::Swindle }
    else if s == "Tenwu of the Red Smoke"@ { Card::Tenwu }
    else { Card::Unknown }
}

/// Every card kind, in declaration order.
pub open spec fn all_cards() -> Seq<Card> {
    seq![Card::BoneSpike, Card::Cloak, Card::Coin, Card::Cutlass, Card::Dancer, Card::Door,
        Card::Evasion, Card::Extortion, Card::Foxy, Card::GoneFishin, Card::Pillager,
        Card::Potion, Card::Preparation, Card::Scabbs, Card::SecretPassage, Card::Shadowstep,
        Card::Shark, Card::Shroud, Card::Swindle, Card::Tenwu, Card::Unknown]
}

/// A thirty-card list built around the combo pieces.
pub open spec fn panda_deck_cards() -> Seq<Card> {
    seq![Card::Coin, Card::Coin, Card::Preparation, Card::Preparation, Card::Shadowstep,
        Card::Shadowstep, Card::Cutlass, Card::Cutlass, Card::Door, Card::Door,
        Card::GoneFishin, Card::GoneFishin, Card::SecretPassage, Card::SecretPassage,
        Card::Extortion, Card::Extortion, Card::Evasion, Card::Evasion, Card::Foxy,
        Card::Swindle, Card::Swindle, Card::Tenwu, Card::Shroud, Card::Shroud, Card::Cloak,
        Card::Potion, Card::Scabbs, Card::Shark, Card::Pillager, Card::Pillager]
}

/// A thirty-card list built around the combo pieces.
pub fn panda_deck() -> (r: Vec<Card>)
    ensures
        r@ == panda_deck_cards(),
{
    let r = vec![Card::Coin, Card::Coin, Card::Preparation, Card::Preparation, Card::Shadowstep,
        Card::Shadowstep, Card::Cutlass, Card::Cutlass, Card::Door, Card::Door,
        Card::GoneFishin, Card::GoneFishin, Card::SecretPassage, Card::SecretPassage,
        Card::Extortion, Card::Extortion, Card::Evasion, Card::Evasion, Card::Foxy,
        Card::Swindle, Card::Swindle, Card::Tenwu, Card::Shroud, Card::Shroud, Card::Cloak,
        Card::Potion, Card::Scabbs, Card::Shark, Card::Pillager, Card::Pillager];
    assert(r@ =~= panda_deck_cards());
    r
}

/// Each catalog entry is exactly one of minion, spell or weapon, except the
/// unknown card, which is none of them.
pub proof fn lemma_one_type_per_card(c: Card)
    ensures
        c != Card::Unknown ==> (is_minion(c) as int) + (is_spell(c) as int) + (is_weapon(c) as int) == 1,
        c == Card::Unknown ==> !is_minion(c) && !is_spell(c) && !is_weapon(c),
        0 <= base_cost(c),
{
}

impl Card {
    /// Every card kind, in declaration order.
    pub fn all() -> (r: Vec<Card>)
        ensures
            r@ == all_cards(),
    {
        let r = vec![Card::BoneSpike, Card::Cloak, Card::Coin, Card::Cutlass, Card::Dancer,
            Card::Door, Card::Evasion, Card::Extortion, Card::Foxy, Card::GoneFishin,
            Card::Pillager, Card::Potion, Card::Preparation, Card::Scabbs, Card::SecretPassage,
            Card::Shadowstep, Card::Shark, Card::Shroud, Card::Swindle, Card::Tenwu,
            Card::Unknown];
        assert(r@ =~= all_cards());
        r
    }

    /// The card kind named `s` in the game client's log.
    pub fn from_name(s: &str) -> (r: Card)
        ensures
            r == card_for_name(s@),
    {
        if str_eq(s, "Serrated Bone Spike") { Card::BoneSpike }
        else if str_eq(s, "Cloak of Shadows") { Card::Cloak }
        else if str_eq(s, "The Coin") || str_eq(s, "Counterfeit Coin") { Card::Coin }
        else if str_eq(s, "Blackwater Cutlass") { Card::Cutlass }
        else if str_eq(s, "Mailbox Dancer") { Card::Dancer }
        else if str_eq(s, "Door of Shadows") { Card::Door }
        else if str_eq(s, "Evasion") { Card::Evasion }
        else if str_eq(s, "SI:7 Extortion") { Card::Extortion }
        else if str_eq(s, "Foxy Fraud") { Card::Foxy }
        else if str_eq(s, "Gone Fishin'") { Card::GoneFishin }
        else if str_eq(s, "Spectral Pillager") { Card::Pillager }
        else if str_eq(s, "Potion of Illusion") { Card::Potion }
        else if str_eq(s, "Preparation") { Card::Preparation }
        else if str_eq(s, "Scabbs Cutterbutter") { Card::Scabbs }
        else if str_eq(s, "Secret Passage") { Card::SecretPassage }
        else if str_eq(s, "Shadowstep") { Card::Shadowstep }
        else if str_eq(s, "Spirit of the Shark") { Card::Shark }
        else if str_eq(s, "Shroud of Concealment") { Card::Shroud }
        else if str_eq(s, "Swindle") { Card::Swindle }
        else if str_eq(s, "Tenwu of the Red Smoke") { Card::Tenwu }
        else { Card::Unknown }
    }

    /// The card kind that a client card id stands for.
    pub fn from_card_id(card_id: &str) -> (r: Card)
        ensures
            r == card_for_id(card_id@),
    {
        let s = card_id;
        if str_eq(s, "REV_939") { Card::BoneSpike }
        else if str_eq(s, "DMF_512") { Card::Cloak }
        else if str_eq(s, "GAME_005") || str_eq(s, "CFM_630") { Card::Coin }
        else if str_eq(s, "DED_004") { Card::Cutlass }
        else if str_eq(s, "SW_070") { Card::Dancer }
        else if str_eq(s, "REV_938") { Card::Door }
        else if str_eq(s, "LOOT_214") { Card::Evasion }
        else if str_eq(s, "SW_412") { Card::Extortion }
        else if str_eq(s, "DMF_511") { Card::Foxy }
        else if str_eq(s, "TSC_916") { Card::GoneFishin }
        else if str_eq(s, "ICC_910") { Card::Pillager }
        else if str_eq(s, "SCH_352") { Card::Potion }
        else if str_eq(s, "CORE_EX1_145") { Card::Preparation }
        else if str_eq(s, "BAR_552") { Card::Scabbs }
        else if str_eq(s, "SCH_305") { Card::SecretPassage }
        else if str_eq(s, "CORE_EX1_144") { Card::Shadowstep }
        else if str_eq(s, "WC_016") { Card::Shroud }
        else if str_eq(s, "TRL_092") { Card::Shark }
        else if str_eq(s, "DMF_515") { Card::Swindle }
        else if str_eq(s, "DMF_071") { Card::Tenwu }
        else { Card::Unknown }
    }

    /// The name under which this card appears in the game client.
    pub fn name(&self) -> (r: &'static str)
        ensures
            r@ == card_name(*self),
    {
        match self {
            Card::BoneSpike => "Serrated Bone Spike",
            Card::Cloak => "Cloak of Shadows",
            Card::Coin => "The Coin",
            Card::Cutlass => "Blackwater Cutlass",
            Card::Dancer => "Mailbox Dancer",
            Card::Door => "Door of Shadows",
            Card::Evasion => "Evasion",
            Card::Extortion => "SI:7 Extortion",
            Card::Foxy => "Foxy Fraud",
            Card::GoneFishin => "Gone Fishin'",
            Card::Pillager => "Spectral Pillager",
            Card::Potion => "Potion of Illusion",
            Card::Preparation => "Preparation",
            Card::Scabbs => "Scabbs Cutterbutter",
            Card::SecretPassage => "Secret Passage",
            Card::Shadowstep => "Shadowstep",
            Card::Shark => "Spirit of the Shark",
            Card::Shroud => "Shroud of Concealment",
            Card::Swindle => "Swindle",
            Card::Tenwu => "Tenwu of the Red Smoke",
            Card::Unknown => "Unknown",
        }
    }

    pub fn cost(&self) -> (r: i32)
        ensures
            r == base_cost(*self),
    {
        match self {
            Card::BoneSpike => 2,
            Card::Cloak => 4,
            Card::Coin => 0,
            Card::Cutlass => 1,
            Card::Dancer => 2,
            Card::Door => 1,
            Card::Evasion => 2,
            Card::Extortion => 1,
            Card::Foxy => 2,
            Card::GoneFishin => 1,
            Card::Pillager => 6,
            Card::Potion => 4,
            Card::Preparation => 0,
            Card::Scabbs => 4,
            Card::SecretPassage => 1,
            Card::Shadowstep => 0,
            Card::Shark => 4,
            Card::Shroud => 3,
            Card::Swindle => 2,
            Card::Tenwu => 2,
            Card::Unknown => UNKNOWN_COST,
        }
    }

    pub fn minion(&self) -> (r: bool)
        ensures
            r == is_minion(*self),
    {
        match self {
            Card::Dancer => true,
            Card::Foxy => true,
            Card::Pillager => true,
            Card::Scabbs => true,
            Card::Shark => true,
            Card::Tenwu => true,
            _ => false,
        }
    }

    pub fn spell(&self) -> (r: bool)
        ensures
            r == is_spell(*self),
    {
        match self {
            Card::BoneSpike => true,
            Card::Cloak => true,
            Card::Coin => true,
            Card::Door => true,
            Card::Evasion => true,
            Card::Extortion => true,
            Card::GoneFishin => true,
            Card::Potion => true,
            Card::Preparation => true,
            Card::SecretPassage => true,
            Card::Shadowstep => true,
            Card::Shroud => true,
            Card::Swindle => true,
            _ => false,
        }
    }

    pub fn weapon(&self) -> (r: bool)
        ensures
            r == is_weapon(*self),
    {
        match self {
            Card::Cutlass => true,
            _ => false,
        }
    }

    pub fn combo(&self) -> (r: bool)
        ensures
            r == is_combo(*self),
    {
        match self {
            Card::Pillager => true,
            Card::Scabbs => true,
            _ => false,
        }
    }

    pub fn must_target(&self) -> (r: bool)
        ensures
            r == needs_target(*self),
    {
        match self {
            Card::Shadowstep => true,
            Card::Tenwu => true,
            _ => false,
        }
    }

    pub fn is_trade(&self) -> (r: bool)
        ensures
            r == is_trade_card(*self),
    {
        *self == Card::Cutlass || *self == Card::Extortion
    }
}

/// One card in hand, with the modifiers that belong to this copy only.
#[derive(Copy, Clone, Debug, PartialEq, Eq, Hash, Structural)]
pub struct CardInstance {
    pub card: Card,
    /// Created by the duplication effect: costs 1.
    pub potion: bool,
    /// Returned to hand by the bounce effect: costs 1 until the turn ends.
    pub tenwu: bool,
    /// A flat discount.
    pub cost_reduction: i32,
    /// Drawn by the hand-swap effect: goes back to the deck at the end of the turn.
    pub passage: bool,
}

/// A fresh copy of a card kind, with no modifiers.
pub open spec fn fresh(c: Card) -> CardInstance {
    CardInstance { card: c, potion: false, tenwu: false, cost_reduction: 0, passage: false }
}

/// The cost of an instance before the discounts of the current turn:
/// `max(0, (potion || tenwu ? 1 : base cost) - cost_reduction)`.
pub open spec fn instance_cost(ci: CardInstance) -> int {
    let base = if ci.potion || ci.tenwu { 1 } else { base_cost(ci.card) };
    let c = base - ci.cost_reduction;
    if c < 0 { 0 } else { c }
}

/// How an instance is shown: its name, then its tags and its discount.
pub open spec fn instance_text(ci: CardInstance) -> Seq<char> {
    card_name(ci.card)
        + (if ci.potion { " (potion)"@ } else { seq![] })
        + (if ci.tenwu { " (tenwu)"@ } else { seq![] })
        + (if ci.cost_reduction > 0 { " (-"@ + decimal(ci.cost_reduction as nat) + ")"@ } else { seq![] })
}

impl CardInstance {
    /// The instance as shown to a player.
    pub fn describe(&self) -> (r: String)
        ensures
            r@ == instance_text(*self),
    {
        let mut s = String::from_str(self.card.name());
        let ghost base = s@;
        if self.potion {
            s.append(" (potion)");
        }
        let ghost a = s@;
        if self.tenwu {
            s.append(" (tenwu)");
        }
        let ghost b = s@;
        if self.cost_reduction > 0 {
            s.append(" (-");
            append_decimal(&mut s, self.cost_reduction as u32);
            s.append(")");
        }
        proof {
            assert(a =~= base + (if self.potion { " (potion)"@ } else { seq![] }));
            assert(b =~= a + (if self.tenwu { " (tenwu)"@ } else { seq![] }));
            assert(s@ =~= b + (if self.cost_reduction > 0 { " (-"@ + decimal(self.cost_reduction as nat)
                + ")"@ } else { seq![] }));
        }
        s
    }

    pub fn new(card: &Card) -> (r: CardInstance)
        ensures
            r == fresh(*card),
    {
        CardInstance { card: *card, potion: false, tenwu: false, cost_reduction: 0, passage: false }
    }

    /// The cost of this instance before the discounts of the current turn.
    pub fn cost(&self) -> (r: i32)
        requires
            instance_cost(*self) <= i32::MAX,
        ensures
            r == instance_cost(*self),
            r >= 0,
    {
        let base: i64 = if self.potion || self.tenwu { 1 } else { self.card.cost() as i64 };
        let c: i64 = base - self.cost_reduction as i64;
        if c < 0 { 0 } else { c as i32 }
    }
}

} // verus!
