//! Combatants, upgrade cards, the per-run battlefield and the player record.
use vstd::prelude::*;
use crate::tables::{ATTACK_BY_TYPE, COOLDOWN_BY_TYPE, HEALTH_BY_TYPE, STATE_IDLE};

verus! {

/// Number of slots on the battlefield; slot 0 is the friendly base, the last one
/// the hostile spawn edge.
pub const SLOT_COUNT: usize = 7;

/// Number of upgrade cards offered at once.
pub const CARD_COUNT: usize = 3;

/// One occupant of a battlefield slot.
#[derive(Clone, Copy, PartialEq, Eq, Structural, Debug, Default)]
pub struct CharacterInfo {
    pub id: u16,
    /// 0 for friendly, 1 for hostile.
    pub alignment: u8,
    /// Index into the archetype tables.
    pub character_type: u8,
    pub cooldown: u8,
    pub cooldown_timer: u8,
    pub max_health: u8,
    pub health: u8,
    pub attack_damage: u8,
    /// 0 idle, 1 attacking, 2 moving; only for display.
    pub state: u8,
}

/// A combatant built from the archetype tables, ready to act after a full cooldown.
pub open spec fn spawned(id: u16, alignment: u8, character_type: u8) -> CharacterInfo
    recommends
        character_type < 7,
{
    CharacterInfo {
        id,
        alignment,
        character_type,
        cooldown: COOLDOWN_BY_TYPE@[character_type as int],
        cooldown_timer: COOLDOWN_BY_TYPE@[character_type as int],
        max_health: HEALTH_BY_TYPE@[character_type as int],
        health: HEALTH_BY_TYPE@[character_type as int],
        attack_damage: ATTACK_BY_TYPE@[character_type as int],
        state: STATE_IDLE,
    }
}

impl CharacterInfo {
    /// Alive, with health at most its maximum, and with positive cooldown and timer.
    pub open spec fn wf(&self) -> bool {
        &&& 1 <= self.health <= self.max_health
        &&& self.cooldown >= 1
        &&& self.cooldown_timer >= 1
    }

    /// A combatant of the given archetype, initialised from the tables.
    pub fn spawn(id: u16, alignment: u8, character_type: u8) -> (c: CharacterInfo)
        requires
            character_type < 7,
        ensures
            c == spawned(id, alignment, character_type),
            c.wf(),
    {
        let t = character_type as usize;
        CharacterInfo {
            id,
            alignment,
            character_type,
            cooldown: COOLDOWN_BY_TYPE[t],
            cooldown_timer: COOLDOWN_BY_TYPE[t],
            max_health: HEALTH_BY_TYPE[t],
            health: HEALTH_BY_TYPE[t],
            attack_damage: ATTACK_BY_TYPE[t],
            state: STATE_IDLE,
        }
    }

    /// Sets the number of ticks left before the next action.
    pub fn update_timer(&mut self, new_timer: u8)
        ensures
            *final(self) == (CharacterInfo { cooldown_timer: new_timer, ..*old(self) }),
    {
        self.cooldown_timer = new_timer;
    }
}

/// A slot holds nothing, or a well-formed combatant.
pub open spec fn slot_ok(s: Option<CharacterInfo>) -> bool {
    match s {
        Some(c) => c.wf(),
        None => true,
    }
}

/// Seven slots, each empty or holding a well-formed combatant.
pub open spec fn slots_ok(slots: Seq<Option<CharacterInfo>>) -> bool {
    &&& slots.len() == SLOT_COUNT
    &&& forall|i: int| 0 <= i < SLOT_COUNT ==> #[trigger] slot_ok(slots[i])
}

/// One upgrade card on offer.
#[derive(Clone, Copy, PartialEq, Eq, Structural, Debug, Default)]
pub struct CardInfo {
    pub id: u16,
    /// 0 vitality, 1 power, 2 haste.
    pub card_type: u8,
}

/// Three cards, each of a known kind.
pub open spec fn cards_ok(cards: Seq<CardInfo>) -> bool {
    &&& cards.len() == CARD_COUNT
    &&& forall|j: int| 0 <= j < CARD_COUNT ==> #[trigger] cards[j].card_type < 3
}

/// The state of one run: counters, the battlefield and the cards on offer.
#[derive(Clone, Copy, PartialEq, Eq, Debug)]
pub struct RunData {
    /// The player's key; the simulation never reads it.
    pub authority: [u8; 32],
    pub score: u64,
    pub experience: u16,
    pub slots: [Option<CharacterInfo>; 7],
    pub last_character_id: u16,
    pub cards: [CardInfo; 3],
    pub last_card_id: u16,
}

/// The mathematical picture of a run, with the arrays seen as sequences.
pub struct RunView {
    pub authority: [u8; 32],
    pub score: u64,
    pub experience: u16,
    pub slots: Seq<Option<CharacterInfo>>,
    pub last_character_id: u16,
    pub cards: Seq<CardInfo>,
    pub last_card_id: u16,
}

impl RunView {
    /// Every slot empty or well formed, and every card of a known kind.
    pub open spec fn wf(self) -> bool {
        slots_ok(self.slots) && cards_ok(self.cards)
    }
}

impl View for RunData {
    type V = RunView;

    open spec fn view(&self) -> RunView {
        RunView {
            authority: self.authority,
            score: self.score,
            experience: self.experience,
            slots: self.slots@,
            last_character_id: self.last_character_id,
            cards: self.cards@,
            last_card_id: self.last_card_id,
        }
    }
}

impl RunData {
    pub open spec fn wf(&self) -> bool {
        self@.wf()
    }

    /// Whether every occupant is alive within its maximal health with positive
    /// cooldown and timer, and every card is of a known kind: what a round and
    /// an upgrade ask of the run they are given.
    pub fn is_valid(&self) -> (r: bool)
        ensures
            r == self.wf(),
    {
        let mut i: usize = 0;
        while i < SLOT_COUNT
            invariant
                i <= SLOT_COUNT,
                forall|j: int| 0 <= j < i ==> #[trigger] slot_ok(self.slots@[j]),
            decreases SLOT_COUNT - i,
        {
            if let Some(c) = self.slots[i] {
                if !(1 <= c.health && c.health <= c.max_health && c.cooldown >= 1 && c.cooldown_timer
                    >= 1) {
                    assert(!slot_ok(self.slots@[i as int]));
                    return false;
                }
            }
            i = i + 1;
        }
        let mut k: usize = 0;
        while k < CARD_COUNT
            invariant
                k <= CARD_COUNT,
                forall|j: int| 0 <= j < k ==> #[trigger] self.cards@[j].card_type < 3,
            decreases CARD_COUNT - k,
        {
            if self.cards[k].card_type >= 3 {
                return false;
            }
            k = k + 1;
        }
        true
    }
}

/// The long-lived record of a player.
#[derive(Debug)]
pub struct PlayerData {
    pub authority: [u8; 32],
    pub name: String,
    pub runs_finished: u32,
    pub best_score: u64,
    pub is_in_run: bool,
}

/// Why an operation on a run was refused; the run is then left as it was.
#[derive(Clone, Copy, PartialEq, Eq, Structural, Debug)]
pub enum GameErrorCode {
    /// The caller does not own the run.
    WrongAuthority,
    /// A counter or a statistic would leave its range.
    ArithmeticOverflow,
    /// The slot index is out of range or the slot is empty.
    InvalidSlot,
    /// The card index is out of range.
    InvalidCardOffer,
    /// The runtime's clock, which seeds the generator, could not be read.
    ClockUnavailable,
}

} // verus!
