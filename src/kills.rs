//! Kills as vanished ids: the experience a round awards is the number of
//! hostile ids that the round takes off the battlefield.
use vstd::prelude::*;
use vstd::set_lib::{full_set_properties, lemma_set_disjoint_lens, lemma_set_subset_finite};
use crate::model::{CharacterInfo, RunView, SLOT_COUNT};
use crate::tables::{FRIENDLY, HOSTILE};
use crate::tick::{
    act, after_hit, ids_distinct, lemma_act_ids, lemma_pass_ids, lemma_pass_len, lemma_same_place,
    lemma_strike_place, pass, strike, tick_spec, SPAWN_SLOT,
};

verus! {

/// Slot `k` holds a hostile combatant with id `x`.
pub open spec fn hostile_at(slots: Seq<Option<CharacterInfo>>, k: int, x: u16) -> bool {
    slots[k] is Some && slots[k]->0.alignment == HOSTILE && slots[k]->0.id == x
}

/// The ids of the hostile combatants on the battlefield.
pub open spec fn hostile_ids(slots: Seq<Option<CharacterInfo>>) -> Set<u16> {
    Set::new(|x: u16| exists|k: int| 0 <= k < SLOT_COUNT && #[trigger] hostile_at(slots, k, x))
}

proof fn lemma_finite(a: Set<u16>)
    ensures
        a.finite(),
{
    broadcast use full_set_properties;

    assert(Set::<u16>::full().finite());
    assert(a.subset_of(Set::<u16>::full()));
    lemma_set_subset_finite(Set::<u16>::full(), a);
}

proof fn lemma_diff_chain(a: Set<u16>, b: Set<u16>, c: Set<u16>)
    requires
        b.subset_of(a),
        c.subset_of(b),
    ensures
        c.subset_of(a),
        a.difference(c).len() == a.difference(b).len() + b.difference(c).len(),
{
    lemma_finite(a.difference(b));
    lemma_finite(b.difference(c));
    assert(a.difference(c) =~= a.difference(b) + b.difference(c));
    lemma_set_disjoint_lens(a.difference(b), b.difference(c));
}

/// Each slot of `after` is empty or holds a combatant with the id and the
/// alignment that the same slot held in `before`.
spec fn kept(after: Seq<Option<CharacterInfo>>, before: Seq<Option<CharacterInfo>>) -> bool {
    forall|j: int|
        0 <= j < SLOT_COUNT && #[trigger] after[j] is Some ==> before[j] is Some && after[j]->0.id
            == before[j]->0.id && after[j]->0.alignment == before[j]->0.alignment
}

proof fn lemma_kept_equal(after: Seq<Option<CharacterInfo>>, before: Seq<Option<CharacterInfo>>)
    requires
        kept(after, before),
        forall|j: int| 0 <= j < SLOT_COUNT && #[trigger] before[j] is Some ==> after[j] is Some,
    ensures
        hostile_ids(after) == hostile_ids(before),
{
    assert forall|x: u16| hostile_ids(after).contains(x) <==> hostile_ids(before).contains(x) by {
        if hostile_ids(after).contains(x) {
            let k = choose|k: int| 0 <= k < SLOT_COUNT && #[trigger] hostile_at(after, k, x);
            assert(hostile_at(before, k, x));
        }
        if hostile_ids(before).contains(x) {
            let k = choose|k: int| 0 <= k < SLOT_COUNT && #[trigger] hostile_at(before, k, x);
            assert(after[k] is Some);
            assert(hostile_at(after, k, x));
        }
    }
    assert(hostile_ids(after) =~= hostile_ids(before));
}

proof fn lemma_strike_hostiles(
    slots: Seq<Option<CharacterInfo>>,
    i: int,
    actor: CharacterInfo,
    t: int,
    foe: u8,
)
    requires
        slots.len() == SLOT_COUNT,
        0 <= i < SLOT_COUNT,
        slots[i] is Some,
        slots[i]->0.id == actor.id,
        slots[i]->0.alignment == actor.alignment,
        foe != actor.alignment,
        ids_distinct(slots),
    ensures
        ({
            let (out, k) = strike(slots, i, actor, t, foe);
            &&& out[i] is Some && out[i]->0.id == actor.id && out[i]->0.alignment == actor.alignment
            &&& out.len() == SLOT_COUNT
            &&& ids_distinct(out)
            &&& hostile_ids(out).subset_of(hostile_ids(slots))
            &&& hostile_ids(slots).difference(hostile_ids(out)).len() == if foe == HOSTILE {
                k
            } else {
                0
            }
        }),
{
    let (out, k) = strike(slots, i, actor, t, foe);
    lemma_strike_place(slots, i, actor, t, foe);
    lemma_same_place(out, slots);
    let h = hostile_ids(slots);
    if 0 <= t < SLOT_COUNT && slots[t] is Some && slots[t]->0.alignment == foe {
        let target = slots[t]->0;
        assert(t != i);
        if after_hit(target, actor.attack_damage) is Some {
            lemma_kept_equal(out, slots);
            assert(h.difference(h) =~= Set::empty());
        } else if foe == HOSTILE {
            assert(hostile_ids(out) =~= h.remove(target.id)) by {
                assert forall|x: u16| hostile_ids(out).contains(x) <==> h.remove(target.id).contains(
                    x,
                ) by {
                    if hostile_ids(out).contains(x) {
                        let k2 = choose|k2: int| 0 <= k2 < SLOT_COUNT && #[trigger] hostile_at(out, k2, x);
                        assert(hostile_at(slots, k2, x));
                        assert(slots[k2] is Some && slots[t] is Some && k2 != t);
                    }
                    if h.remove(target.id).contains(x) {
                        let k2 = choose|k2: int| 0 <= k2 < SLOT_COUNT && #[trigger] hostile_at(slots, k2, x);
                        assert(k2 != t);
                        assert(hostile_at(out, k2, x));
                    }
                }
            }
            assert(hostile_at(slots, t, target.id));
            assert(h.difference(h.remove(target.id)) =~= set![target.id]);
        } else {
            assert forall|j: int| 0 <= j < SLOT_COUNT && #[trigger] slots[j] is Some && slots[j]->0.alignment
                == HOSTILE implies out[j] is Some by {
                assert(j != t);
            }
            assert(hostile_ids(out) =~= h) by {
                assert forall|x: u16| hostile_ids(out).contains(x) <==> h.contains(x) by {
                    if hostile_ids(out).contains(x) {
                        let k2 = choose|k2: int| 0 <= k2 < SLOT_COUNT && #[trigger] hostile_at(out, k2, x);
                        assert(hostile_at(slots, k2, x));
                    }
                    if h.contains(x) {
                        let k2 = choose|k2: int| 0 <= k2 < SLOT_COUNT && #[trigger] hostile_at(slots, k2, x);
                        assert(out[k2] is Some);
                        assert(hostile_at(out, k2, x));
                    }
                }
            }
            assert(h.difference(h) =~= Set::empty());
        }
    } else {
        assert(h.difference(h) =~= Set::empty());
    }
}

proof fn lemma_act_hostiles(slots: Seq<Option<CharacterInfo>>, i: int)
    requires
        slots.len() == SLOT_COUNT,
        0 <= i < SLOT_COUNT,
        ids_distinct(slots),
    ensures
        hostile_ids(act(slots, i).0).subset_of(hostile_ids(slots)),
        hostile_ids(slots).difference(hostile_ids(act(slots, i).0)).len() == act(slots, i).1,
{
    let (out, k) = act(slots, i);
    let h = hostile_ids(slots);
    assert(h.difference(h) =~= Set::empty());
    match slots[i] {
        None => {},
        Some(c) => {
            let timer = (c.cooldown_timer - 1) as u8;
            if timer != 0 {
                lemma_kept_equal(out, slots);
            } else {
                let actor = CharacterInfo { cooldown_timer: c.cooldown, ..c };
                let placed = slots.update(i, Some(actor));
                lemma_kept_equal(placed, slots);
                lemma_act_ids(slots, i);
                if actor.alignment == HOSTILE {
                    if i == 0 {
                    } else if placed[i - 1] is None {
                        assert(hostile_ids(out) =~= h) by {
                            assert forall|x: u16| hostile_ids(out).contains(x) <==> h.contains(x) by {
                                if hostile_ids(out).contains(x) {
                                    let k2 = choose|k2: int| 0 <= k2 < SLOT_COUNT && #[trigger] hostile_at(out, k2, x);
                                    if k2 == i - 1 {
                                        assert(hostile_at(slots, i, x));
                                    } else {
                                        assert(hostile_at(slots, k2, x));
                                    }
                                }
                                if h.contains(x) {
                                    let k2 = choose|k2: int| 0 <= k2 < SLOT_COUNT && #[trigger] hostile_at(slots, k2, x);
                                    if k2 == i {
                                        assert(hostile_at(out, i - 1, x));
                                    } else {
                                        assert(hostile_at(out, k2, x));
                                    }
                                }
                            }
                        }
                    } else {
                        lemma_strike_hostiles(placed, i, actor, i - 1, FRIENDLY);
                    }
                } else if actor.alignment == FRIENDLY {
                    if actor.character_type == 1 {
                        let (s4, k4) = strike(placed, i, actor, 4, HOSTILE);
                        let (s5, k5) = strike(s4, i, actor, 5, HOSTILE);
                        lemma_strike_hostiles(placed, i, actor, 4, HOSTILE);
                        lemma_strike_hostiles(s4, i, actor, 5, HOSTILE);
                        lemma_strike_hostiles(s5, i, actor, 6, HOSTILE);
                        lemma_diff_chain(hostile_ids(placed), hostile_ids(s4), hostile_ids(s5));
                        lemma_diff_chain(hostile_ids(placed), hostile_ids(s5), hostile_ids(out));
                    } else if actor.character_type == 2 {
                        lemma_strike_hostiles(placed, i, actor, i + 1, HOSTILE);
                    } else if actor.character_type == 0 {
                        lemma_strike_hostiles(placed, i, actor, SPAWN_SLOT as int, HOSTILE);
                    }
                }
            }
        },
    }
}

proof fn lemma_pass_hostiles(slots: Seq<Option<CharacterInfo>>, n: nat)
    requires
        slots.len() == SLOT_COUNT,
        ids_distinct(slots),
        n <= SLOT_COUNT,
    ensures
        hostile_ids(pass(slots, n).0).subset_of(hostile_ids(slots)),
        hostile_ids(slots).difference(hostile_ids(pass(slots, n).0)).len() == pass(slots, n).1,
    decreases n,
{
    let h = hostile_ids(slots);
    if n == 0 {
        assert(h.difference(h) =~= Set::empty());
    } else {
        let prev = pass(slots, (n - 1) as nat).0;
        lemma_pass_hostiles(slots, (n - 1) as nat);
        lemma_pass_len(slots, (n - 1) as nat);
        lemma_pass_ids(slots, 0, (n - 1) as nat);
        lemma_act_hostiles(prev, n - 1);
        lemma_diff_chain(h, hostile_ids(prev), hostile_ids(pass(slots, n).0));
    }
}

/// Kills show only in the experience: when the ids on the battlefield are
/// distinct and at most the last id handed out, a round raises the score by
/// exactly one and the experience by the number of hostile ids present before
/// the round and gone after it.
pub proof fn lemma_tick_experience(r: RunView, seed: u64)
    requires
        r.slots.len() == SLOT_COUNT,
        ids_distinct(r.slots),
        forall|k: int|
            0 <= k < SLOT_COUNT && #[trigger] r.slots[k] is Some ==> r.slots[k]->0.id
                <= r.last_character_id,
    ensures
        tick_spec(r, seed) is Ok ==> {
            let v = tick_spec(r, seed)->Ok_0;
            &&& v.score == r.score + 1
            &&& v.experience == r.experience + hostile_ids(r.slots).difference(
                hostile_ids(v.slots),
            ).len()
        },
{
    let p = pass(r.slots, SLOT_COUNT as nat).0;
    lemma_pass_hostiles(r.slots, SLOT_COUNT as nat);
    lemma_pass_len(r.slots, SLOT_COUNT as nat);
    if tick_spec(r, seed) is Ok {
        let v = tick_spec(r, seed)->Ok_0;
        if p[SPAWN_SLOT as int] is None {
            let h = hostile_ids(r.slots);
            let id = v.last_character_id;
            assert forall|x: u16| h.contains(x) implies x != id by {
                let k = choose|k: int| 0 <= k < SLOT_COUNT && #[trigger] hostile_at(r.slots, k, x);
                assert(r.slots[k] is Some);
            }
            assert forall|x: u16| #[trigger] hostile_ids(v.slots).contains(x) implies hostile_ids(
                p,
            ).contains(x) || x == id by {
                let k = choose|k: int| 0 <= k < SLOT_COUNT && #[trigger] hostile_at(v.slots, k, x);
                if k != SPAWN_SLOT as int {
                    assert(hostile_at(p, k, x));
                }
            }
            assert forall|x: u16| #[trigger] hostile_ids(p).contains(x) implies hostile_ids(
                v.slots,
            ).contains(x) by {
                let k = choose|k: int| 0 <= k < SLOT_COUNT && #[trigger] hostile_at(p, k, x);
                assert(k != SPAWN_SLOT as int);
                assert(hostile_at(v.slots, k, x));
            }
            assert(h.difference(hostile_ids(v.slots)) =~= h.difference(hostile_ids(p)));
        } else {
            assert(v.slots == p);
        }
    }
}

} // verus!
