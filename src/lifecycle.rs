//! Creating a player, starting a run with the opening roster, and finishing it.
use vstd::prelude::*;
use crate::model::{
    slot_ok, spawned, CardInfo, CharacterInfo, GameErrorCode, PlayerData, RunData, RunView, CARD_COUNT,
    SLOT_COUNT,
};
use crate::tables::{FRIENDLY, HOSTILE};

verus! {

/// Slots 0 to 2 start friendly, the others hostile.
pub const FIRST_HOSTILE_SLOT: usize = 3;

/// The opening roster: slot `i` holds a combatant of archetype `i` with id `i`,
/// friendly in slots 0 to 2 and hostile in slots 3 to 6.
pub open spec fn opening_roster() -> Seq<Option<CharacterInfo>> {
    Seq::new(
        SLOT_COUNT as nat,
        |i: int|
            Some(
                spawned(
                    i as u16,
                    if i < FIRST_HOSTILE_SLOT { FRIENDLY } else { HOSTILE },
                    i as u8,
                ),
            ),
    )
}

/// The opening offer: card `j` has id `j` and kind `j`.
pub open spec fn opening_cards() -> Seq<CardInfo> {
    Seq::new(CARD_COUNT as nat, |j: int| CardInfo { id: j as u16, card_type: j as u8 })
}

/// A run that has just been created for `authority`: no score, empty slots,
/// and cards that are all zero.
pub open spec fn fresh_run(authority: [u8; 32]) -> RunView {
    RunView {
        authority,
        score: 0,
        experience: 0,
        slots: Seq::new(SLOT_COUNT as nat, |i: int| None),
        last_character_id: 0,
        cards: Seq::new(CARD_COUNT as nat, |j: int| CardInfo { id: 0, card_type: 0 }),
        last_card_id: 0,
    }
}

/// `r` at the start of a run: counters at zero and the opening roster and cards.
pub open spec fn started(r: RunView) -> RunView {
    RunView {
        score: 0,
        experience: 0,
        slots: opening_roster(),
        last_character_id: 6,
        cards: opening_cards(),
        last_card_id: 2,
        ..r
    }
}

/// Creates the record of a new player and the empty run that belongs to it.
pub fn init_player(authority: [u8; 32], name: String) -> (r: (PlayerData, RunData))
    ensures
        r.0.authority == authority,
        r.0.name@ == name@,
        r.0.runs_finished == 0,
        r.0.best_score == 0,
        !r.0.is_in_run,
        r.1@ == fresh_run(authority),
        r.1.wf(),
{
    let player = PlayerData { authority, name, runs_finished: 0, best_score: 0, is_in_run: false };
    let run = RunData {
        authority,
        score: 0,
        experience: 0,
        slots: [None; 7],
        last_character_id: 0,
        cards: [CardInfo { id: 0, card_type: 0 }; 3],
        last_card_id: 0,
    };
    assert(run.slots@ =~= fresh_run(authority).slots);
    assert(run.cards@ =~= fresh_run(authority).cards);
    (player, run)
}

/// Starts a run: the player is marked as playing, the counters go to zero and
/// the slots and cards receive the opening roster and offer.
pub fn start_new_run(run: &mut RunData, player_data: &mut PlayerData)
    ensures
        final(run)@ == started(old(run)@),
        final(run).wf(),
        final(player_data).is_in_run,
        final(player_data).authority == old(player_data).authority,
        final(player_data).name == old(player_data).name,
        final(player_data).runs_finished == old(player_data).runs_finished,
        final(player_data).best_score == old(player_data).best_score,
{
    player_data.is_in_run = true;
    run.score = 0;
    run.experience = 0;
    let mut i: usize = 0;
    while i < SLOT_COUNT
        invariant
            i <= SLOT_COUNT,
            run.authority == old(run).authority,
            run.score == 0,
            run.experience == 0,
            run.cards == old(run).cards,
            run.last_card_id == old(run).last_card_id,
            run.last_character_id == old(run).last_character_id,
            forall|j: int| 0 <= j < i ==> run.slots@[j] == #[trigger] opening_roster()[j],
        decreases SLOT_COUNT - i,
    {
        let alignment = if i < FIRST_HOSTILE_SLOT {
            FRIENDLY
        } else {
            HOSTILE
        };
        run.slots[i] = Some(CharacterInfo::spawn(i as u16, alignment, i as u8));
        i = i + 1;
    }
    run.last_character_id = 6;
    run.cards[0] = CardInfo { id: 0, card_type: 0 };
    run.cards[1] = CardInfo { id: 1, card_type: 1 };
    run.cards[2] = CardInfo { id: 2, card_type: 2 };
    run.last_card_id = 2;
    assert(run.slots@ =~= opening_roster());
    assert(run.cards@ =~= opening_cards());
    proof {
        assert forall|j: int| 0 <= j < SLOT_COUNT implies #[trigger] slot_ok(run.slots@[j]) by {
            assert(run.slots@[j] == opening_roster()[j]);
        }
    }
}

/// `r` after its run is finished: the counters go back to zero while the slots
/// and cards stay as they were.
pub open spec fn finished(r: RunView) -> RunView {
    RunView { score: 0, experience: 0, last_character_id: 0, last_card_id: 0, ..r }
}

/// Ends a run: the player's count of finished runs goes up by one, the best
/// score becomes the run's score if that is higher, and the run's counters go
/// back to zero. Fails, changing nothing, when the count of finished runs is
/// already at its maximum.
pub fn finish_run(run: &mut RunData, player_data: &mut PlayerData) -> (r: Result<(), GameErrorCode>)
    ensures
        r is Err <==> old(player_data).runs_finished == u32::MAX,
        r is Err ==> r == Err::<(), GameErrorCode>(GameErrorCode::ArithmeticOverflow)
            && final(run)@ == old(run)@ && *final(player_data) == *old(player_data),
        r is Ok ==> {
            &&& final(run)@ == finished(old(run)@)
            &&& final(player_data).runs_finished == old(player_data).runs_finished + 1
            &&& final(player_data).best_score == if old(run).score > old(player_data).best_score {
                old(run).score
            } else {
                old(player_data).best_score
            }
            &&& !final(player_data).is_in_run
            &&& final(player_data).authority == old(player_data).authority
            &&& final(player_data).name == old(player_data).name
        },
        old(run).wf() ==> final(run).wf(),
{
    if player_data.runs_finished == u32::MAX {
        return Err(GameErrorCode::ArithmeticOverflow);
    }
    player_data.runs_finished = player_data.runs_finished + 1;
    if run.score > player_data.best_score {
        player_data.best_score = run.score;
    }
    player_data.is_in_run = false;
    run.score = 0;
    run.experience = 0;
    run.last_character_id = 0;
    run.last_card_id = 0;
    Ok(())
}

/// Adds one to the score; fails, changing nothing, when the score is at its
/// maximum.
pub fn increment(run: &mut RunData) -> (r: Result<(), GameErrorCode>)
    ensures
        r is Err <==> old(run).score == u64::MAX,
        r is Err ==> r == Err::<(), GameErrorCode>(GameErrorCode::ArithmeticOverflow)
            && final(run)@ == old(run)@,
        r is Ok ==> final(run)@ == (RunView { score: (old(run).score + 1) as u64, ..old(run)@ }),
{
    if run.score == u64::MAX {
        return Err(GameErrorCode::ArithmeticOverflow);
    }
    run.score = run.score + 1;
    Ok(())
}

/// Sets the score back to zero, leaving the rest of the run alone.
pub fn reset(run: &mut RunData)
    ensures
        final(run)@ == (RunView { score: 0, ..old(run)@ }),
{
    run.score = 0;
}

} // verus!
