//! A structural hash of game states, used to key the transposition caches.
use vstd::prelude::*;

use crate::card::{Card, CardInstance};
use crate::rules::GameView;

verus! {

/// The modulus of the hash: the prime `2^61 - 1`.
pub const HASH_MODULUS: u64 = 2305843009213693951;

/// The multiplier of the hash.
pub const HASH_MULTIPLIER: u64 = 1099511628211;

/// The hash of the empty word sequence.
pub const HASH_SEED: u64 = 14695981039346656037;

/// One word folded into the hash.
pub open spec fn mix(h: u64, x: u64) -> u64 {
    ((h as int * HASH_MULTIPLIER as int + x as int) % HASH_MODULUS as int) as u64
}

/// The hash of a sequence of words, folded from the left.
pub open spec fn hash_words(s: Seq<u64>) -> u64
    decreases s.len(),
{
    if s.len() == 0 {
        HASH_SEED
    } else {
        mix(hash_words(s.drop_last()), s.last())
    }
}

/// An `i32`-ranged value as a word.
pub open spec fn field_word(x: int) -> u64 {
    (x + 2147483648) as u64
}

pub open spec fn card_word(c: Card) -> u64 {
    match c {
        Card::BoneSpike => 1,
        Card::Cloak => 2,
        Card::Coin => 3,
        Card::Cutlass => 4,
        Card::Dancer => 5,
        Card::Door => 6,
        Card::Evasion => 7,
        Card::Extortion => 8,
        Card::Foxy => 9,
        Card::GoneFishin => 10,
        Card::Pillager => 11,
        Card::Potion => 12,
        Card::Preparation => 13,
        Card::Scabbs => 14,
        Card::SecretPassage => 15,
        Card::Shadowstep => 16,
        Card::Shark => 17,
        Card::Shroud => 18,
        Card::Swindle => 19,
        Card::Tenwu => 20,
        Card::Unknown => 21,
    }
}

pub open spec fn instance_word(ci: CardInstance) -> u64 {
    (card_word(ci.card) as int * 0x100_0000_0000
        + (if ci.potion { 0x80_0000_0000int } else { 0 })
        + (if ci.tenwu { 0x40_0000_0000int } else { 0 })
        + (if ci.passage { 0x20_0000_0000int } else { 0 })
        + field_word(ci.cost_reduction as int) as int) as u64
}

/// The words that describe a state: its counters, then each sequence
/// preceded by its length. Hand order counts.
pub open spec fn state_words(v: GameView) -> Seq<u64> {
    seq![field_word(v.life), field_word(v.mana), field_word(v.storm), field_word(v.foxy),
        field_word(v.scabbs), field_word(v.next_scabbs), field_word(v.turn),
        if v.prep_pending { 1u64 } else { 0u64 }]
        + seq![v.board.len() as u64] + v.board.map_values(|c: Card| card_word(c))
        + seq![v.hand.len() as u64] + v.hand.map_values(|ci: CardInstance| instance_word(ci))
        + seq![v.passage.len() as u64] + v.passage.map_values(|ci: CardInstance| instance_word(ci))
        + seq![v.deck.len() as u64] + v.deck.map_values(|c: Card| card_word(c))
        + seq![v.fish.len() as u64] + v.fish.map_values(|c: Card| card_word(c))
}

/// The structural hash of a state.
pub open spec fn state_key(v: GameView) -> u64 {
    hash_words(state_words(v))
}

/// States that are equal hash equally, whatever moves reached them.
pub proof fn lemma_equal_states_hash_equally(a: GameView, b: GameView)
    requires
        a == b,
    ensures
        state_key(a) == state_key(b),
{
}

pub(crate) fn mix_word(h: u64, x: u64, Ghost(words): Ghost<Seq<u64>>) -> (r: u64)
    requires
        h == hash_words(words),
    ensures
        r == hash_words(words.push(x)),
{
    assert(words.push(x).drop_last() =~= words);
    let p: u128 = h as u128 * HASH_MULTIPLIER as u128;
    assert(p <= 0xffff_ffff_ffff_ffffu128 * 1099511628211u128) by (nonlinear_arith)
        requires p == h as u128 * HASH_MULTIPLIER as u128, h <= 0xffff_ffff_ffff_ffffu64;
    ((p + x as u128) % HASH_MODULUS as u128) as u64
}

fn card_code(c: &Card) -> (r: u64)
    ensures
        r == card_word(*c),
{
    match c {
        Card::BoneSpike => 1,
        Card::Cloak => 2,
        Card::Coin => 3,
        Card::Cutlass => 4,
        Card::Dancer => 5,
        Card::Door => 6,
        Card::Evasion => 7,
        Card::Extortion => 8,
        Card::Foxy => 9,
        Card::GoneFishin => 10,
        Card::Pillager => 11,
        Card::Potion => 12,
        Card::Preparation => 13,
        Card::Scabbs => 14,
        Card::SecretPassage => 15,
        Card::Shadowstep => 16,
        Card::Shark => 17,
        Card::Shroud => 18,
        Card::Swindle => 19,
        Card::Tenwu => 20,
        Card::Unknown => 21,
    }
}

fn field_code(x: i32) -> (r: u64)
    ensures
        r == field_word(x as int),
{
    (x as i64 + 2147483648) as u64
}

fn instance_code(ci: &CardInstance) -> (r: u64)
    ensures
        r == instance_word(*ci),
{
    card_code(&ci.card) * 0x100_0000_0000 + (if ci.potion { 0x80_0000_0000u64 } else { 0 })
        + (if ci.tenwu { 0x40_0000_0000u64 } else { 0 }) + (if ci.passage { 0x20_0000_0000u64 } else { 0 })
        + field_code(ci.cost_reduction)
}

pub(crate) fn mix_cards(h: u64, cards: &Vec<Card>, Ghost(words): Ghost<Seq<u64>>) -> (r: u64)
    requires
        h == hash_words(words),
    ensures
        r == hash_words(words + seq![cards@.len() as u64] + cards@.map_values(|c: Card| card_word(c))),
{
    let ghost start = words.push(cards@.len() as u64);
    let mut h = mix_word(h, cards.len() as u64, Ghost(words));
    let mut i: usize = 0;
    while i < cards.len()
        invariant
            i <= cards@.len(),
            h == hash_words(start + cards@.take(i as int).map_values(|c: Card| card_word(c))),
        decreases cards@.len() - i,
    {
        let ghost done = start + cards@.take(i as int).map_values(|c: Card| card_word(c));
        h = mix_word(h, card_code(&cards[i]), Ghost(done));
        i = i + 1;
        assert(done.push(card_word(cards@[i - 1])) =~= start + cards@.take(i as int).map_values(|c: Card| card_word(c)));
    }
    assert(cards@.take(i as int) =~= cards@);
    assert(start =~= words + seq![cards@.len() as u64]);
    h
}

pub(crate) fn mix_instances(h: u64, cis: &Vec<CardInstance>, Ghost(words): Ghost<Seq<u64>>) -> (r: u64)
    requires
        h == hash_words(words),
    ensures
        r == hash_words(words + seq![cis@.len() as u64] + cis@.map_values(|ci: CardInstance| instance_word(ci))),
{
    let ghost start = words.push(cis@.len() as u64);
    let mut h = mix_word(h, cis.len() as u64, Ghost(words));
    let mut i: usize = 0;
    while i < cis.len()
        invariant
            i <= cis@.len(),
            h == hash_words(start + cis@.take(i as int).map_values(|ci: CardInstance| instance_word(ci))),
        decreases cis@.len() - i,
    {
        let ghost done = start + cis@.take(i as int).map_values(|ci: CardInstance| instance_word(ci));
        h = mix_word(h, instance_code(&cis[i]), Ghost(done));
        i = i + 1;
        assert(done.push(instance_word(cis@[i - 1])) =~= start + cis@.take(i as int).map_values(|ci: CardInstance| instance_word(ci)));
    }
    assert(cis@.take(i as int) =~= cis@);
    assert(start =~= words + seq![cis@.len() as u64]);
    h
}

} // verus!
