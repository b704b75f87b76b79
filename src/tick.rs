//! One combat round: cooldowns, movement, attacks, deaths and the spawn of a new
//! enemy, resolved in slot order over a single working array.
//!
//! The pass is not double-buffered: whatever processing slot `k` changes is seen
//! by slots `k + 1` and later in the same round, and a slot below `k` is never
//! looked at again.
use vstd::prelude::*;
use crate::clock::current_slot;
use crate::model::{
    slot_ok, slots_ok, spawned, CharacterInfo, GameErrorCode, RunData, RunView, SLOT_COUNT,
};
use crate::prng::{enemy_type, enemy_type_of};
use crate::tables::{FRIENDLY, HOSTILE, STATE_ATTACKING, STATE_IDLE, STATE_MOVING};

verus! {

/// At most this many hostiles die in one round: three per processed slot.
pub const MAX_KILLS_PER_ROUND: u16 = 21;

/// The slot where new enemies appear, and the one the guard aims at.
pub const SPAWN_SLOT: usize = 6;

/// What is left of `target` after a blow of `damage`: nothing once the blow
/// reaches its health.
pub open spec fn after_hit(target: CharacterInfo, damage: u8) -> Option<CharacterInfo> {
    if damage >= target.health {
        None
    } else {
        Some(CharacterInfo { health: (target.health - damage) as u8, ..target })
    }
}

/// `actor`, standing at slot `i`, attacks slot `t` if that slot holds a combatant
/// of alignment `foe`: the actor is shown attacking and the target is hit.
/// The count is 1 when the blow kills.
pub open spec fn strike(
    slots: Seq<Option<CharacterInfo>>,
    i: int,
    actor: CharacterInfo,
    t: int,
    foe: u8,
) -> (Seq<Option<CharacterInfo>>, nat) {
    if 0 <= t < SLOT_COUNT && slots[t] is Some && slots[t]->0.alignment == foe {
        let shown = slots.update(i, Some(CharacterInfo { state: STATE_ATTACKING, ..actor }));
        let left = after_hit(slots[t]->0, actor.attack_damage);
        (shown.update(t, left), if left is None { 1 } else { 0 })
    } else {
        (slots, 0)
    }
}

/// A hostile actor at slot `i` steps forward into an empty slot `i - 1`, or
/// attacks a friendly combatant standing there.
pub open spec fn hostile_turn(
    slots: Seq<Option<CharacterInfo>>,
    i: int,
    actor: CharacterInfo,
) -> Seq<Option<CharacterInfo>> {
    if i == 0 {
        slots
    } else if slots[i - 1] is None {
        slots.update(i, None).update(i - 1, Some(CharacterInfo { state: STATE_MOVING, ..actor }))
    } else {
        strike(slots, i, actor, i - 1, FRIENDLY).0
    }
}

/// The ranged archetype fires at each of slots 4, 5 and 6 in turn.
pub open spec fn volley(
    slots: Seq<Option<CharacterInfo>>,
    i: int,
    actor: CharacterInfo,
) -> (Seq<Option<CharacterInfo>>, nat) {
    let (s4, k4) = strike(slots, i, actor, 4, HOSTILE);
    let (s5, k5) = strike(s4, i, actor, 5, HOSTILE);
    let (s6, k6) = strike(s5, i, actor, 6, HOSTILE);
    (s6, k4 + k5 + k6)
}

/// A friendly actor at slot `i` attacks by archetype: the guard (0) slot 6, the
/// ranged (1) slots 4 to 6, the melee (2) the next slot.
pub open spec fn friendly_turn(
    slots: Seq<Option<CharacterInfo>>,
    i: int,
    actor: CharacterInfo,
) -> (Seq<Option<CharacterInfo>>, nat) {
    if actor.character_type == 2 {
        strike(slots, i, actor, i + 1, HOSTILE)
    } else if actor.character_type == 1 {
        volley(slots, i, actor)
    } else if actor.character_type == 0 {
        strike(slots, i, actor, SPAWN_SLOT as int, HOSTILE)
    } else {
        (slots, 0)
    }
}

/// Processing of slot `i`: its occupant's timer runs down by one; at zero it is
/// reset to the cooldown and the occupant acts. The count is the number of
/// hostiles that a friendly actor killed.
pub open spec fn act(slots: Seq<Option<CharacterInfo>>, i: int) -> (Seq<Option<CharacterInfo>>, nat) {
    match slots[i] {
        None => (slots, 0),
        Some(c) => {
            let timer = (c.cooldown_timer - 1) as u8;
            if timer != 0 {
                (slots.update(i, Some(CharacterInfo { cooldown_timer: timer, state: STATE_IDLE, ..c })), 0)
            } else {
                let actor = CharacterInfo { cooldown_timer: c.cooldown, ..c };
                let placed = slots.update(i, Some(actor));
                if actor.alignment == HOSTILE {
                    (hostile_turn(placed, i, actor), 0)
                } else if actor.alignment == FRIENDLY {
                    friendly_turn(placed, i, actor)
                } else {
                    (placed, 0)
                }
            }
        },
    }
}

/// Slots `0 .. n` processed in order on one working sequence, with the kills
/// counted along the way.
pub open spec fn pass(slots: Seq<Option<CharacterInfo>>, n: nat) -> (Seq<Option<CharacterInfo>>, nat)
    decreases n,
{
    if n == 0 {
        (slots, 0)
    } else {
        let (s, k) = pass(slots, (n - 1) as nat);
        let (s2, k2) = act(s, n - 1);
        (s2, k + k2)
    }
}

/// The run after one round with spawn seed `seed`, or the error that stops it:
/// the score gains one, the experience gains one per kill, and an empty spawn
/// slot receives a new enemy with the next id.
pub open spec fn tick_spec(r: RunView, seed: u64) -> Result<RunView, GameErrorCode> {
    let (s, kills) = pass(r.slots, SLOT_COUNT as nat);
    if r.score == u64::MAX {
        Err(GameErrorCode::ArithmeticOverflow)
    } else if r.experience + kills > u16::MAX {
        Err(GameErrorCode::ArithmeticOverflow)
    } else if s[SPAWN_SLOT as int] is Some {
        Ok(RunView { score: (r.score + 1) as u64, experience: (r.experience + kills) as u16, slots: s, ..r })
    } else if r.last_character_id == u16::MAX {
        Err(GameErrorCode::ArithmeticOverflow)
    } else {
        let id = (r.last_character_id + 1) as u16;
        Ok(
            RunView {
                score: (r.score + 1) as u64,
                experience: (r.experience + kills) as u16,
                slots: s.update(SPAWN_SLOT as int, Some(spawned(id, HOSTILE, enemy_type_of(seed)))),
                last_character_id: id,
                ..r
            },
        )
    }
}

fn strike_at(
    work: &mut [Option<CharacterInfo>; 7],
    i: usize,
    actor: CharacterInfo,
    t: usize,
    foe: u8,
) -> (kills: u32)
    requires
        i < SLOT_COUNT,
        t < SLOT_COUNT,
    ensures
        (final(work)@, kills as nat) == strike(old(work)@, i as int, actor, t as int, foe),
        kills <= 1,
{
    match work[t] {
        Some(target) => {
            if target.alignment == foe {
                work[i] = Some(CharacterInfo { state: STATE_ATTACKING, ..actor });
                if actor.attack_damage >= target.health {
                    work[t] = None;
                    1
                } else {
                    work[t] = Some(CharacterInfo { health: target.health - actor.attack_damage, ..target });
                    0
                }
            } else {
                0
            }
        },
        None => 0,
    }
}

fn act_at(work: &mut [Option<CharacterInfo>; 7], i: usize) -> (kills: u32)
    requires
        i < SLOT_COUNT,
        slot_ok(old(work)@[i as int]),
    ensures
        (final(work)@, kills as nat) == act(old(work)@, i as int),
        kills <= 3,
{
    match work[i] {
        None => 0,
        Some(c) => {
            let timer = c.cooldown_timer - 1;
            if timer != 0 {
                work[i] = Some(CharacterInfo { cooldown_timer: timer, state: STATE_IDLE, ..c });
                return 0;
            }
            let actor = CharacterInfo { cooldown_timer: c.cooldown, ..c };
            work[i] = Some(actor);
            if actor.alignment == HOSTILE {
                if i > 0 {
                    if work[i - 1].is_none() {
                        work[i] = None;
                        work[i - 1] = Some(CharacterInfo { state: STATE_MOVING, ..actor });
                    } else {
                        strike_at(work, i, actor, i - 1, FRIENDLY);
                    }
                }
                0
            } else if actor.alignment == FRIENDLY {
                if actor.character_type == 2 {
                    if i + 1 < SLOT_COUNT {
                        strike_at(work, i, actor, i + 1, HOSTILE)
                    } else {
                        0
                    }
                } else if actor.character_type == 1 {
                    let k4 = strike_at(work, i, actor, 4, HOSTILE);
                    let k5 = strike_at(work, i, actor, 5, HOSTILE);
                    let k6 = strike_at(work, i, actor, 6, HOSTILE);
                    k4 + k5 + k6
                } else if actor.character_type == 0 {
                    strike_at(work, i, actor, SPAWN_SLOT, HOSTILE)
                } else {
                    0
                }
            } else {
                0
            }
        },
    }
}

proof fn lemma_strike_ok(
    slots: Seq<Option<CharacterInfo>>,
    i: int,
    actor: CharacterInfo,
    t: int,
    foe: u8,
)
    requires
        slots_ok(slots),
        0 <= i < SLOT_COUNT,
        actor.wf(),
    ensures
        slots_ok(strike(slots, i, actor, t, foe).0),
        strike(slots, i, actor, t, foe).1 <= 1,
{
    let r = strike(slots, i, actor, t, foe).0;
    assert forall|j: int| 0 <= j < SLOT_COUNT implies #[trigger] slot_ok(r[j]) by {
        assert(slot_ok(slots[j]));
    }
}

proof fn lemma_act_ok(slots: Seq<Option<CharacterInfo>>, i: int)
    requires
        slots_ok(slots),
        0 <= i < SLOT_COUNT,
    ensures
        slots_ok(act(slots, i).0),
        act(slots, i).1 <= 3,
{
    assert(slot_ok(slots[i]));
    match slots[i] {
        None => {},
        Some(c) => {
            let timer = (c.cooldown_timer - 1) as u8;
            if timer != 0 {
                let r = act(slots, i).0;
                assert forall|j: int| 0 <= j < SLOT_COUNT implies #[trigger] slot_ok(r[j]) by {
                    assert(slot_ok(slots[j]));
                }
            } else {
                let actor = CharacterInfo { cooldown_timer: c.cooldown, ..c };
                let placed = slots.update(i, Some(actor));
                assert forall|j: int| 0 <= j < SLOT_COUNT implies #[trigger] slot_ok(placed[j]) by {
                    assert(slot_ok(slots[j]));
                }
                if actor.alignment == HOSTILE {
                    if i > 0 {
                        if placed[i - 1] is None {
                            let r = hostile_turn(placed, i, actor);
                            assert forall|j: int| 0 <= j < SLOT_COUNT implies #[trigger] slot_ok(r[j]) by {
                                assert(slot_ok(placed[j]));
                            }
                        } else {
                            lemma_strike_ok(placed, i, actor, i - 1, FRIENDLY);
                        }
                    }
                } else if actor.alignment == FRIENDLY {
                    if actor.character_type == 1 {
                        let s4 = strike(placed, i, actor, 4, HOSTILE).0;
                        let s5 = strike(s4, i, actor, 5, HOSTILE).0;
                        lemma_strike_ok(placed, i, actor, 4, HOSTILE);
                        lemma_strike_ok(s4, i, actor, 5, HOSTILE);
                        lemma_strike_ok(s5, i, actor, 6, HOSTILE);
                    } else {
                        lemma_strike_ok(placed, i, actor, i + 1, HOSTILE);
                        lemma_strike_ok(placed, i, actor, SPAWN_SLOT as int, HOSTILE);
                    }
                }
            }
        },
    }
}

pub(crate) proof fn lemma_pass_len(slots: Seq<Option<CharacterInfo>>, n: nat)
    requires
        slots.len() == SLOT_COUNT,
        n <= SLOT_COUNT,
    ensures
        pass(slots, n).0.len() == SLOT_COUNT,
    decreases n,
{
    if n > 0 {
        lemma_pass_len(slots, (n - 1) as nat);
    }
}

proof fn lemma_pass_ok(slots: Seq<Option<CharacterInfo>>, n: nat)
    requires
        slots_ok(slots),
        n <= SLOT_COUNT,
    ensures
        slots_ok(pass(slots, n).0),
        pass(slots, n).1 <= 3 * n,
    decreases n,
{
    if n > 0 {
        lemma_pass_ok(slots, (n - 1) as nat);
        lemma_act_ok(pass(slots, (n - 1) as nat).0, n - 1);
    }
}

/// Resolves one round over the slots, in index order on one working copy, and
/// returns the slots afterwards with the number of hostiles that friendly
/// combatants killed.
pub fn resolve_slots(slots: [Option<CharacterInfo>; 7]) -> (r: ([Option<CharacterInfo>; 7], u32))
    requires
        slots_ok(slots@),
    ensures
        (r.0@, r.1 as nat) == pass(slots@, SLOT_COUNT as nat),
        slots_ok(r.0@),
        r.1 <= 3 * SLOT_COUNT,
{
    let mut work = slots;
    let mut kills: u32 = 0;
    let mut i: usize = 0;
    while i < SLOT_COUNT
        invariant
            slots_ok(slots@),
            i <= SLOT_COUNT,
            (work@, kills as nat) == pass(slots@, i as nat),
            kills <= 3 * i,
        decreases SLOT_COUNT - i,
    {
        proof {
            lemma_pass_ok(slots@, i as nat);
        }
        let k = act_at(&mut work, i);
        kills = kills + k;
        i = i + 1;
    }
    proof {
        lemma_pass_ok(slots@, SLOT_COUNT as nat);
    }
    (work, kills)
}

/// Advances the run by one round, drawing the archetype of a new enemy from
/// `seed` when the spawn slot ends up empty. On an error the run is unchanged.
pub fn advance_tick(run: &mut RunData, seed: u64) -> (r: Result<(), GameErrorCode>)
    requires
        old(run).wf(),
    ensures
        match tick_spec(old(run)@, seed) {
            Ok(v) => r is Ok && final(run)@ == v,
            Err(e) => r == Err::<(), GameErrorCode>(e) && final(run)@ == old(run)@,
        },
        final(run).wf(),
        old(run).score < u64::MAX && old(run).experience + MAX_KILLS_PER_ROUND <= u16::MAX
            && old(run).last_character_id < u16::MAX ==> r is Ok,
{
    proof {
        lemma_tick_succeeds(old(run)@, seed);
    }
    if run.score == u64::MAX {
        return Err(GameErrorCode::ArithmeticOverflow);
    }
    let (mut slots, kills) = resolve_slots(run.slots);
    if run.experience as u32 + kills > u16::MAX as u32 {
        return Err(GameErrorCode::ArithmeticOverflow);
    }
    let mut last_id = run.last_character_id;
    if slots[SPAWN_SLOT].is_none() {
        if last_id == u16::MAX {
            return Err(GameErrorCode::ArithmeticOverflow);
        }
        last_id = last_id + 1;
        slots[SPAWN_SLOT] = Some(CharacterInfo::spawn(last_id, HOSTILE, enemy_type(seed)));
    }
    proof {
        let s = slots@;
        assert forall|j: int| 0 <= j < SLOT_COUNT implies #[trigger] slot_ok(s[j]) by {}
    }
    run.score = run.score + 1;
    run.experience = run.experience + kills as u16;
    run.slots = slots;
    run.last_character_id = last_id;
    Ok(())
}

/// Whether the round leaves the spawn slot empty, so that a new enemy, and a
/// seed for its archetype, are needed.
pub open spec fn needs_spawn(r: RunView) -> bool {
    pass(r.slots, SLOT_COUNT as nat).0[SPAWN_SLOT as int] is None
}

proof fn lemma_tick_seed(r: RunView, s1: u64, s2: u64)
    ensures
        tick_spec(r, s1) is Err <==> tick_spec(r, s2) is Err,
        tick_spec(r, s1) is Err ==> tick_spec(r, s1) == tick_spec(r, s2),
        !needs_spawn(r) ==> tick_spec(r, s1) == tick_spec(r, s2),
        tick_spec(r, s1) is Ok ==> (needs_spawn(r) <==> tick_spec(r, s1)->Ok_0.last_character_id
            != r.last_character_id),
{
}

/// Advances the run by one round, reading the runtime's clock for the seed
/// only when a new enemy has to be spawned. The outcome is that of
/// `advance_tick` with some seed; the clock can only make the round fail when
/// a spawn is due and nothing else stops the round, and the run is then
/// unchanged.
pub fn increment_via_thread(run: &mut RunData) -> (r: Result<(), GameErrorCode>)
    requires
        old(run).wf(),
    ensures
        final(run).wf(),
        r is Ok ==> exists|s: u64|
            tick_spec(old(run)@, s) == Ok::<RunView, GameErrorCode>(final(run)@),
        r is Err ==> final(run)@ == old(run)@,
        forall|s: u64|
            #[trigger] tick_spec(old(run)@, s) is Err ==> r == Err::<(), GameErrorCode>(
                tick_spec(old(run)@, s)->Err_0,
            ),
        r == Err::<(), GameErrorCode>(GameErrorCode::ClockUnavailable) ==> needs_spawn(old(run)@),
        !needs_spawn(old(run)@) && tick_spec(old(run)@, 0) is Ok ==> r is Ok,
        tick_spec(old(run)@, 0) is Ok ==> (r is Ok || r == Err::<(), GameErrorCode>(
            GameErrorCode::ClockUnavailable,
        )),
{
    // The seed only matters for a spawn: resolve the round on a copy first.
    let mut trial = *run;
    let first = advance_tick(&mut trial, 0);
    proof {
        assert forall|s: u64| #[trigger] tick_spec(old(run)@, s) is Err implies first
            == Err::<(), GameErrorCode>(tick_spec(old(run)@, s)->Err_0) by {
            lemma_tick_seed(old(run)@, s, 0);
        }
        lemma_tick_seed(old(run)@, 0, 0);
    }
    match first {
        Err(e) => Err(e),
        Ok(()) => {
            if trial.last_character_id == run.last_character_id {
                *run = trial;
                assert(tick_spec(old(run)@, 0) == Ok::<RunView, GameErrorCode>(run@));
                Ok(())
            } else {
                match current_slot() {
                    Ok(slot) => {
                        proof {
                            lemma_tick_seed(old(run)@, slot, 0);
                        }
                        advance_tick(run, slot)
                    },
                    Err(_) => Err(GameErrorCode::ClockUnavailable),
                }
            }
        },
    }
}

/// A round on a well-formed run fails only on overflow: when the score is
/// below its maximum, the experience can take every possible kill, and a new
/// enemy id is available, the round succeeds.
pub proof fn lemma_tick_succeeds(r: RunView, seed: u64)
    requires
        r.wf(),
    ensures
        r.score < u64::MAX && r.experience + MAX_KILLS_PER_ROUND <= u16::MAX
            && r.last_character_id < u16::MAX ==> tick_spec(r, seed) is Ok,
{
    lemma_pass_ok(r.slots, SLOT_COUNT as nat);
}

/// Slot `k` holds a combatant with id `x`.
pub open spec fn id_at(slots: Seq<Option<CharacterInfo>>, k: int, x: u16) -> bool {
    slots[k] is Some && slots[k]->0.id == x
}

/// Some slot holds a combatant with id `x`.
pub open spec fn has_id(slots: Seq<Option<CharacterInfo>>, x: u16) -> bool {
    exists|k: int| 0 <= k < SLOT_COUNT && #[trigger] id_at(slots, k, x)
}

/// No two occupied slots hold the same id.
pub open spec fn ids_distinct(slots: Seq<Option<CharacterInfo>>) -> bool {
    forall|j: int, k: int|
        0 <= j < SLOT_COUNT && 0 <= k < SLOT_COUNT && j != k && #[trigger] slots[j] is Some
            && #[trigger] slots[k] is Some ==> slots[j]->0.id != slots[k]->0.id
}

/// Every id held in `after` was already held in `before`.
pub open spec fn ids_within(after: Seq<Option<CharacterInfo>>, before: Seq<Option<CharacterInfo>>) -> bool {
    forall|x: u16| #[trigger] has_id(after, x) ==> has_id(before, x)
}

/// Each slot of `after` is empty or keeps the id that the same slot had in `before`.
pub(crate) open spec fn same_place(after: Seq<Option<CharacterInfo>>, before: Seq<Option<CharacterInfo>>) -> bool {
    forall|j: int|
        0 <= j < SLOT_COUNT && #[trigger] after[j] is Some ==> before[j] is Some && after[j]->0.id
            == before[j]->0.id
}

pub(crate) proof fn lemma_same_place(after: Seq<Option<CharacterInfo>>, before: Seq<Option<CharacterInfo>>)
    requires
        same_place(after, before),
    ensures
        ids_within(after, before),
        ids_distinct(before) ==> ids_distinct(after),
{
    assert forall|x: u16| #[trigger] has_id(after, x) implies has_id(before, x) by {
        let k = choose|k: int| 0 <= k < SLOT_COUNT && #[trigger] id_at(after, k, x);
        assert(after[k] is Some);
        assert(id_at(before, k, x));
    }
    if ids_distinct(before) {
        assert forall|j: int, k: int|
            0 <= j < SLOT_COUNT && 0 <= k < SLOT_COUNT && j != k && #[trigger] after[j] is Some
                && #[trigger] after[k] is Some implies after[j]->0.id != after[k]->0.id by {
            assert(before[j] is Some && before[k] is Some);
        }
    }
}

proof fn lemma_within_trans(
    a: Seq<Option<CharacterInfo>>,
    b: Seq<Option<CharacterInfo>>,
    c: Seq<Option<CharacterInfo>>,
)
    requires
        ids_within(a, b),
        ids_within(b, c),
    ensures
        ids_within(a, c),
{
    assert forall|x: u16| #[trigger] has_id(a, x) implies has_id(c, x) by {
        assert(has_id(b, x));
    }
}

pub(crate) proof fn lemma_strike_place(
    slots: Seq<Option<CharacterInfo>>,
    i: int,
    actor: CharacterInfo,
    t: int,
    foe: u8,
)
    requires
        slots.len() == SLOT_COUNT,
        0 <= i < SLOT_COUNT,
        id_at(slots, i, actor.id),
    ensures
        same_place(strike(slots, i, actor, t, foe).0, slots),
        id_at(strike(slots, i, actor, t, foe).0, i, actor.id) || (t == i && strike(
            slots,
            i,
            actor,
            t,
            foe,
        ).0[i] is None),
        strike(slots, i, actor, t, foe).0.len() == SLOT_COUNT,
{
}

pub(crate) proof fn lemma_act_ids(slots: Seq<Option<CharacterInfo>>, i: int)
    requires
        slots.len() == SLOT_COUNT,
        0 <= i < SLOT_COUNT,
    ensures
        ids_within(act(slots, i).0, slots),
        ids_distinct(slots) ==> ids_distinct(act(slots, i).0),
{
    let out = act(slots, i).0;
    match slots[i] {
        None => {
            lemma_same_place(out, slots);
        },
        Some(c) => {
            let timer = (c.cooldown_timer - 1) as u8;
            if timer != 0 {
                lemma_same_place(out, slots);
            } else {
                let actor = CharacterInfo { cooldown_timer: c.cooldown, ..c };
                let placed = slots.update(i, Some(actor));
                lemma_same_place(placed, slots);
                if actor.alignment == HOSTILE {
                    if i == 0 {
                    } else if placed[i - 1] is None {
                        assert forall|x: u16| #[trigger] has_id(out, x) implies has_id(placed, x) by {
                            let k = choose|k: int| 0 <= k < SLOT_COUNT && #[trigger] id_at(out, k, x);
                            if k == i - 1 {
                                assert(id_at(placed, i, x));
                            } else {
                                assert(id_at(placed, k, x));
                            }
                        }
                        lemma_within_trans(out, placed, slots);
                        if ids_distinct(slots) {
                            assert forall|j: int, k: int|
                                0 <= j < SLOT_COUNT && 0 <= k < SLOT_COUNT && j != k
                                    && #[trigger] out[j] is Some && #[trigger] out[k] is Some implies out[j]->0.id
                                != out[k]->0.id by {
                                let pj = if j == i - 1 { i } else { j };
                                let pk = if k == i - 1 { i } else { k };
                                assert(placed[pj] is Some && placed[pk] is Some);
                                assert(pj != pk);
                            }
                        }
                    } else {
                        lemma_strike_place(placed, i, actor, i - 1, FRIENDLY);
                        lemma_same_place(out, placed);
                        lemma_within_trans(out, placed, slots);
                    }
                } else if actor.alignment == FRIENDLY {
                    if actor.character_type == 1 {
                        let s4 = strike(placed, i, actor, 4, HOSTILE).0;
                        let s5 = strike(s4, i, actor, 5, HOSTILE).0;
                        lemma_strike_place(placed, i, actor, 4, HOSTILE);
                        lemma_strike_place(s4, i, actor, 5, HOSTILE);
                        lemma_strike_place(s5, i, actor, 6, HOSTILE);
                        lemma_same_place(s4, placed);
                        lemma_same_place(s5, s4);
                        lemma_same_place(out, s5);
                        lemma_within_trans(s5, s4, placed);
                        lemma_within_trans(out, s5, placed);
                        lemma_within_trans(out, placed, slots);
                    } else if actor.character_type == 2 {
                        lemma_strike_place(placed, i, actor, i + 1, HOSTILE);
                        lemma_same_place(out, placed);
                        lemma_within_trans(out, placed, slots);
                    } else if actor.character_type == 0 {
                        lemma_strike_place(placed, i, actor, SPAWN_SLOT as int, HOSTILE);
                        lemma_same_place(out, placed);
                        lemma_within_trans(out, placed, slots);
                    }
                }
            }
        },
    }
}

/// Processing slots `m` to `n - 1` only moves, wounds or removes combatants:
/// every id held after `n` steps of the pass was held after `m` steps, so an
/// id that leaves the battlefield at some step (a kill) never comes back in
/// the same pass; and distinct ids stay distinct.
pub proof fn lemma_pass_ids(slots: Seq<Option<CharacterInfo>>, m: nat, n: nat)
    requires
        slots.len() == SLOT_COUNT,
        m <= n <= SLOT_COUNT,
    ensures
        ids_within(pass(slots, n).0, pass(slots, m).0),
        ids_distinct(slots) ==> ids_distinct(pass(slots, n).0),
    decreases n,
{
    if n == m {
        assert forall|x: u16| #[trigger] has_id(pass(slots, n).0, x) implies has_id(
            pass(slots, m).0,
            x,
        ) by {}
    }
    if n > 0 {
        let prev = pass(slots, (n - 1) as nat).0;
        lemma_pass_len(slots, (n - 1) as nat);
        lemma_act_ids(prev, n - 1);
        if m < n {
            lemma_pass_ids(slots, m, (n - 1) as nat);
            lemma_within_trans(pass(slots, n).0, prev, pass(slots, m).0);
        } else {
            lemma_pass_ids(slots, 0, (n - 1) as nat);
        }
    }
}

/// Ids are never reused within a run: when the ids on the battlefield are
/// distinct and at most the last id handed out, a round keeps them so; every
/// id held afterwards was held before the round or is the newly handed-out
/// one, which no earlier combatant had; and an id that left the battlefield
/// at any step of the round (a killed combatant) is held by no slot afterwards.
pub proof fn lemma_tick_ids(r: RunView, seed: u64)
    requires
        r.slots.len() == SLOT_COUNT,
        ids_distinct(r.slots),
        forall|k: int|
            0 <= k < SLOT_COUNT && #[trigger] r.slots[k] is Some ==> r.slots[k]->0.id
                <= r.last_character_id,
    ensures
        tick_spec(r, seed) is Ok ==> {
            let v = tick_spec(r, seed)->Ok_0;
            &&& ids_distinct(v.slots)
            &&& forall|k: int|
                0 <= k < SLOT_COUNT && #[trigger] v.slots[k] is Some ==> v.slots[k]->0.id
                    <= v.last_character_id
            &&& forall|x: u16| #[trigger]
                has_id(v.slots, x) ==> has_id(r.slots, x) || (x == v.last_character_id
                    && x != r.last_character_id && !has_id(r.slots, x))
            &&& forall|m: nat, x: u16|
                m <= SLOT_COUNT && x <= r.last_character_id && !#[trigger] has_id(
                    pass(r.slots, m).0,
                    x,
                ) ==> !has_id(v.slots, x)
        },
{
    let p = pass(r.slots, SLOT_COUNT as nat).0;
    lemma_pass_len(r.slots, SLOT_COUNT as nat);
    lemma_pass_ids(r.slots, 0, SLOT_COUNT as nat);
    assert(pass(r.slots, 0).0 == r.slots);
    assert forall|m: nat| m <= SLOT_COUNT implies #[trigger] ids_within(p, pass(r.slots, m).0) by {
        lemma_pass_ids(r.slots, m, SLOT_COUNT as nat);
    }
    if tick_spec(r, seed) is Ok {
        let v = tick_spec(r, seed)->Ok_0;
        // Ids after the pass are at most the last id handed out.
        assert forall|k: int| 0 <= k < SLOT_COUNT && #[trigger] p[k] is Some implies p[k]->0.id
            <= r.last_character_id by {
            assert(id_at(p, k, p[k]->0.id));
            assert(has_id(p, p[k]->0.id));
            let j = choose|j: int| 0 <= j < SLOT_COUNT && #[trigger] id_at(r.slots, j, p[k]->0.id);
            assert(r.slots[j] is Some);
        }
        if p[SPAWN_SLOT as int] is Some {
            assert(v.slots == p);
        } else {
            let id = (r.last_character_id + 1) as u16;
            assert forall|x: u16| #[trigger] has_id(v.slots, x) implies has_id(r.slots, x) || (x
                == v.last_character_id && x != r.last_character_id && !has_id(r.slots, x)) by {
                let k = choose|k: int| 0 <= k < SLOT_COUNT && #[trigger] id_at(v.slots, k, x);
                if k != SPAWN_SLOT as int {
                    assert(id_at(p, k, x));
                    assert(has_id(p, x));
                } else {
                    assert(x == id);
                    if has_id(r.slots, x) {
                        let j = choose|j: int| 0 <= j < SLOT_COUNT && #[trigger] id_at(r.slots, j, x);
                        assert(r.slots[j] is Some);
                    }
                }
            }
            assert forall|j: int, k: int|
                0 <= j < SLOT_COUNT && 0 <= k < SLOT_COUNT && j != k && #[trigger] v.slots[j] is Some
                    && #[trigger] v.slots[k] is Some implies v.slots[j]->0.id != v.slots[k]->0.id by {
                if j != SPAWN_SLOT as int && k != SPAWN_SLOT as int {
                    assert(p[j] is Some && p[k] is Some);
                } else if j != SPAWN_SLOT as int {
                    assert(p[j] is Some);
                } else {
                    assert(p[k] is Some);
                }
            }
            assert forall|k: int| 0 <= k < SLOT_COUNT && #[trigger] v.slots[k] is Some implies v.slots[k]->0.id
                <= v.last_character_id by {
                if k != SPAWN_SLOT as int {
                    assert(p[k] is Some);
                }
            }
        }
        assert forall|m: nat, x: u16|
            m <= SLOT_COUNT && x <= r.last_character_id && !#[trigger] has_id(
                pass(r.slots, m).0,
                x,
            ) implies !has_id(v.slots, x) by {
            assert(ids_within(p, pass(r.slots, m).0));
            if has_id(v.slots, x) {
                let k = choose|k: int| 0 <= k < SLOT_COUNT && #[trigger] id_at(v.slots, k, x);
                if p[SPAWN_SLOT as int] is None && k == SPAWN_SLOT as int {
                } else {
                    assert(id_at(p, k, x));
                    assert(has_id(p, x));
                }
            }
        }
    }
}

/// Every round keeps each present combatant's health within one and its
/// maximal health: a combatant whose health would drop to zero or below leaves
/// its slot in the round where that happens.
pub proof fn lemma_tick_keeps_health(r: RunView, seed: u64)
    requires
        r.wf(),
    ensures
        tick_spec(r, seed) is Ok ==> {
            let v = tick_spec(r, seed)->Ok_0;
            &&& v.wf()
            &&& forall|i: int|
                0 <= i < SLOT_COUNT && #[trigger] v.slots[i] is Some ==> 1 <= v.slots[i]->0.health
                    <= v.slots[i]->0.max_health
        },
{
    lemma_pass_ok(r.slots, SLOT_COUNT as nat);
    if tick_spec(r, seed) is Ok {
        let v = tick_spec(r, seed)->Ok_0;
        assert forall|i: int| 0 <= i < SLOT_COUNT implies #[trigger] slot_ok(v.slots[i]) by {
            assert(slot_ok(pass(r.slots, SLOT_COUNT as nat).0[i]));
        }
        assert forall|i: int| 0 <= i < SLOT_COUNT && #[trigger] v.slots[i] is Some implies 1
            <= v.slots[i]->0.health <= v.slots[i]->0.max_health by {
            assert(slot_ok(v.slots[i]));
        }
    }
}

/// A round raises the score by exactly one; kills show only in the experience,
/// which gains one per hostile that a friendly combatant killed.
pub proof fn lemma_tick_score(r: RunView, seed: u64)
    ensures
        tick_spec(r, seed) is Ok ==> {
            let v = tick_spec(r, seed)->Ok_0;
            &&& v.score == r.score + 1
            &&& v.experience == r.experience + pass(r.slots, SLOT_COUNT as nat).1
            &&& v.experience >= r.experience
        },
{
}

/// After every round the spawn slot is occupied: if the round left it empty, a
/// new enemy is placed there.
pub proof fn lemma_tick_fills_spawn_slot(r: RunView, seed: u64)
    requires
        r.slots.len() == SLOT_COUNT,
    ensures
        tick_spec(r, seed) is Ok ==> tick_spec(r, seed)->Ok_0.slots[SPAWN_SLOT as int] is Some,
{
    lemma_pass_len(r.slots, SLOT_COUNT as nat);
}

/// A round is a function of the run and the seed: equal runs and equal seeds
/// give equal outcomes.
pub proof fn lemma_tick_deterministic(r1: RunView, r2: RunView, seed1: u64, seed2: u64)
    requires
        r1 == r2,
        seed1 == seed2,
    ensures
        tick_spec(r1, seed1) == tick_spec(r2, seed2),
{
}

} // verus!
