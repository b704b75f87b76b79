//! Spending a card on a combatant: the card's effect, its experience cost, and
//! the draw of a replacement card.
use vstd::prelude::*;
use crate::clock::current_slot;
use crate::model::{
    cards_ok, slot_ok, CardInfo, CharacterInfo, GameErrorCode, RunData, RunView,
    CARD_COUNT, SLOT_COUNT,
};
use crate::prng::{card_type, card_type_of};
use crate::tables::{CARD_COST_BY_TYPE, CARD_HASTE, CARD_POWER, CARD_VITALITY};

verus! {

/// Score awarded for every upgrade.
pub const UPGRADE_SCORE: u64 = 100;

/// Health and maximal health gained from a vitality card.
pub const VITALITY_BONUS: u8 = 10;

/// Whether applying a card of `kind` to `c` would push a statistic past 255.
pub open spec fn effect_overflows(c: CharacterInfo, kind: u8) -> bool {
    ||| kind == CARD_VITALITY && (c.max_health + VITALITY_BONUS > u8::MAX || c.health
        + VITALITY_BONUS > u8::MAX)
    ||| kind == CARD_POWER && c.attack_damage + 1 > u8::MAX
}

/// `c` after a card of `kind`: vitality adds ten to health and maximal health,
/// power one to the attack, and haste takes one off a cooldown above one.
pub open spec fn card_effect(c: CharacterInfo, kind: u8) -> CharacterInfo {
    if kind == CARD_VITALITY {
        CharacterInfo {
            max_health: (c.max_health + VITALITY_BONUS) as u8,
            health: (c.health + VITALITY_BONUS) as u8,
            ..c
        }
    } else if kind == CARD_POWER {
        CharacterInfo { attack_damage: (c.attack_damage + 1) as u8, ..c }
    } else if kind == CARD_HASTE && c.cooldown > 1 {
        CharacterInfo { cooldown: (c.cooldown - 1) as u8, ..c }
    } else {
        c
    }
}

/// Experience after paying for a card of `kind`: the cost is taken only when
/// it can be paid in full; otherwise nothing is taken.
pub open spec fn experience_after(experience: u16, kind: u8) -> u16 {
    let cost = CARD_COST_BY_TYPE@[kind as int];
    if experience >= cost {
        (experience - cost) as u16
    } else {
        experience
    }
}

/// The run after card `card_slot` is spent on the combatant in slot `slot`,
/// with the replacement card drawn from `seed`, or the error that stops it.
pub open spec fn upgrade_spec(r: RunView, card_slot: u16, slot: u8, seed: u64) -> Result<
    RunView,
    GameErrorCode,
> {
    if card_slot >= CARD_COUNT {
        Err(GameErrorCode::InvalidCardOffer)
    } else if slot >= SLOT_COUNT || r.slots[slot as int] is None {
        Err(GameErrorCode::InvalidSlot)
    } else {
        let kind = r.cards[card_slot as int].card_type;
        let c = r.slots[slot as int]->0;
        if effect_overflows(c, kind) || r.last_card_id == u16::MAX || r.score + UPGRADE_SCORE
            > u64::MAX {
            Err(GameErrorCode::ArithmeticOverflow)
        } else {
            let id = (r.last_card_id + 1) as u16;
            Ok(
                RunView {
                    score: (r.score + UPGRADE_SCORE) as u64,
                    experience: experience_after(r.experience, kind),
                    slots: r.slots.update(slot as int, Some(card_effect(c, kind))),
                    cards: r.cards.update(card_slot as int, CardInfo { id, card_type: card_type_of(seed) }),
                    last_card_id: id,
                    ..r
                },
            )
        }
    }
}

fn apply_card(c: CharacterInfo, kind: u8) -> (r: CharacterInfo)
    requires
        !effect_overflows(c, kind),
    ensures
        r == card_effect(c, kind),
{
    let mut n = c;
    if kind == CARD_VITALITY {
        n.max_health = c.max_health + VITALITY_BONUS;
        n.health = c.health + VITALITY_BONUS;
    } else if kind == CARD_POWER {
        n.attack_damage = c.attack_damage + 1;
    } else if kind == CARD_HASTE && c.cooldown > 1 {
        n.cooldown = c.cooldown - 1;
    }
    n
}

/// Spends card `card_slot` on the combatant in slot `character_slot_index`:
/// applies the effect, charges its cost if the experience covers it, puts a
/// new card drawn from `seed` in its place and adds 100 to the score. On an
/// error the run is unchanged.
pub fn apply_upgrade(run: &mut RunData, card_slot: u16, character_slot_index: u8, seed: u64) -> (r: Result<
    (),
    GameErrorCode,
>)
    requires
        old(run).wf(),
    ensures
        match upgrade_spec(old(run)@, card_slot, character_slot_index, seed) {
            Ok(v) => r is Ok && final(run)@ == v,
            Err(e) => r == Err::<(), GameErrorCode>(e) && final(run)@ == old(run)@,
        },
        final(run).wf(),
{
    if card_slot as usize >= CARD_COUNT {
        return Err(GameErrorCode::InvalidCardOffer);
    }
    let ci = card_slot as usize;
    let si = character_slot_index as usize;
    if si >= SLOT_COUNT {
        return Err(GameErrorCode::InvalidSlot);
    }
    let c = match run.slots[si] {
        Some(c) => c,
        None => {
            return Err(GameErrorCode::InvalidSlot);
        },
    };
    let kind = run.cards[ci].card_type;
    proof {
        assert(cards_ok(run.cards@));
        assert(kind < 3);
    }
    if kind == CARD_VITALITY && (c.max_health > u8::MAX - VITALITY_BONUS || c.health > u8::MAX
        - VITALITY_BONUS) {
        return Err(GameErrorCode::ArithmeticOverflow);
    }
    if kind == CARD_POWER && c.attack_damage == u8::MAX {
        return Err(GameErrorCode::ArithmeticOverflow);
    }
    if run.last_card_id == u16::MAX || run.score > u64::MAX - UPGRADE_SCORE {
        return Err(GameErrorCode::ArithmeticOverflow);
    }
    let upgraded = apply_card(c, kind);
    let id = run.last_card_id + 1;
    let cost = CARD_COST_BY_TYPE[kind as usize] as u16;
    let new_card = CardInfo { id, card_type: card_type(seed) };
    proof {
        assert(slot_ok(run.slots@[si as int]));
        let s = run.slots@.update(si as int, Some(upgraded));
        assert forall|j: int| 0 <= j < SLOT_COUNT implies #[trigger] slot_ok(s[j]) by {
            assert(slot_ok(run.slots@[j]));
        }
        let k = run.cards@.update(ci as int, new_card);
        assert forall|j: int| 0 <= j < CARD_COUNT implies #[trigger] k[j].card_type < 3 by {
            assert(run.cards@[j].card_type < 3);
        }
    }
    run.slots[si] = Some(upgraded);
    run.last_card_id = id;
    if run.experience >= cost {
        run.experience = run.experience - cost;
    }
    run.cards[ci] = new_card;
    run.score = run.score + UPGRADE_SCORE;
    Ok(())
}

proof fn lemma_upgrade_seed(r: RunView, card_slot: u16, slot: u8, s1: u64, s2: u64)
    ensures
        upgrade_spec(r, card_slot, slot, s1) is Err <==> upgrade_spec(r, card_slot, slot, s2) is Err,
        upgrade_spec(r, card_slot, slot, s1) is Err ==> upgrade_spec(r, card_slot, slot, s1)
            == upgrade_spec(r, card_slot, slot, s2),
{
}

/// Spends card `card_slot` on the combatant in slot `character_slot_index`,
/// drawing the replacement card from the runtime's clock. The outcome is that
/// of `apply_upgrade` with some seed; the clock can only make the upgrade
/// fail when nothing else stops it, and the run is then unchanged.
pub fn upgrade(run: &mut RunData, card_slot: u16, character_slot_index: u8) -> (r: Result<
    (),
    GameErrorCode,
>)
    requires
        old(run).wf(),
    ensures
        final(run).wf(),
        r is Ok ==> exists|s: u64|
            upgrade_spec(old(run)@, card_slot, character_slot_index, s) == Ok::<
                RunView,
                GameErrorCode,
            >(final(run)@),
        r is Err ==> final(run)@ == old(run)@,
        forall|s: u64|
            #[trigger] upgrade_spec(old(run)@, card_slot, character_slot_index, s) is Err ==> r
                == Err::<(), GameErrorCode>(
                upgrade_spec(old(run)@, card_slot, character_slot_index, s)->Err_0,
            ),
        r == Err::<(), GameErrorCode>(GameErrorCode::ClockUnavailable) ==> upgrade_spec(
            old(run)@,
            card_slot,
            character_slot_index,
            0,
        ) is Ok,
        upgrade_spec(old(run)@, card_slot, character_slot_index, 0) is Ok ==> (r is Ok || r
            == Err::<(), GameErrorCode>(GameErrorCode::ClockUnavailable)),
{
    // The checks do not depend on the new card: make them on a copy first.
    let mut trial = *run;
    let first = apply_upgrade(&mut trial, card_slot, character_slot_index, 0);
    proof {
        assert forall|s: u64|
            #[trigger] upgrade_spec(old(run)@, card_slot, character_slot_index, s) is Err implies first
            == Err::<(), GameErrorCode>(
            upgrade_spec(old(run)@, card_slot, character_slot_index, s)->Err_0,
        ) by {
            lemma_upgrade_seed(old(run)@, card_slot, character_slot_index, s, 0);
        }
    }
    match first {
        Err(e) => Err(e),
        Ok(()) => match current_slot() {
            Ok(slot) => {
                proof {
                    lemma_upgrade_seed(old(run)@, card_slot, character_slot_index, slot, 0);
                }
                apply_upgrade(run, card_slot, character_slot_index, slot)
            },
            Err(_) => Err(GameErrorCode::ClockUnavailable),
        },
    }
}

/// A haste card spent on a combatant whose cooldown is already one leaves that
/// combatant as it was, and still takes the card off the offer, replaces it
/// with a card of the next id and awards the score bonus.
pub proof fn lemma_haste_rejected(r: RunView, card_slot: u16, slot: u8, seed: u64)
    requires
        r.wf(),
        card_slot < CARD_COUNT,
        slot < SLOT_COUNT,
        r.slots[slot as int] is Some,
        r.slots[slot as int]->0.cooldown == 1,
        r.cards[card_slot as int].card_type == CARD_HASTE,
        r.last_card_id < u16::MAX,
        r.score + UPGRADE_SCORE <= u64::MAX,
    ensures
        upgrade_spec(r, card_slot, slot, seed) is Ok,
        ({
            let v = upgrade_spec(r, card_slot, slot, seed)->Ok_0;
            &&& v.slots[slot as int] == r.slots[slot as int]
            &&& v.slots[slot as int]->0.cooldown == 1
            &&& v.cards[card_slot as int].id == r.last_card_id + 1
            &&& v.last_card_id == r.last_card_id + 1
            &&& v.score == r.score + UPGRADE_SCORE
        }),
{
}

/// An upgrade with a card on offer, on an occupied slot, succeeds whenever the
/// score can take the bonus, a new card id is available and the card does not
/// push a statistic of the combatant past 255; the score then rises by exactly
/// 100, whatever the card and whether or not its cost could be paid.
pub proof fn lemma_upgrade_succeeds(r: RunView, card_slot: u16, slot: u8, seed: u64)
    requires
        r.wf(),
        card_slot < CARD_COUNT,
        slot < SLOT_COUNT,
        r.slots[slot as int] is Some,
        r.score + UPGRADE_SCORE <= u64::MAX,
        r.last_card_id < u16::MAX,
        !effect_overflows(r.slots[slot as int]->0, r.cards[card_slot as int].card_type),
    ensures
        upgrade_spec(r, card_slot, slot, seed) is Ok,
        upgrade_spec(r, card_slot, slot, seed)->Ok_0.score == r.score + UPGRADE_SCORE,
{
}

/// Every upgrade raises the score by exactly 100 and takes from the
/// experience at most the cost of the card spent.
pub proof fn lemma_upgrade_score(r: RunView, card_slot: u16, slot: u8, seed: u64)
    requires
        r.wf(),
    ensures
        upgrade_spec(r, card_slot, slot, seed) is Ok ==> {
            let v = upgrade_spec(r, card_slot, slot, seed)->Ok_0;
            &&& v.score == r.score + UPGRADE_SCORE
            &&& v.experience <= r.experience
            &&& r.experience - v.experience <= 3
        },
{
    if card_slot < CARD_COUNT {
        assert(r.cards[card_slot as int].card_type < 3);
    }
}

/// An upgrade is a function of the run, the chosen card and slot, and the
/// seed: equal inputs give equal outcomes.
pub proof fn lemma_upgrade_deterministic(
    r1: RunView,
    r2: RunView,
    card_slot: u16,
    slot: u8,
    seed1: u64,
    seed2: u64,
)
    requires
        r1 == r2,
        seed1 == seed2,
    ensures
        upgrade_spec(r1, card_slot, slot, seed1) == upgrade_spec(r2, card_slot, slot, seed2),
{
}

} // verus!
