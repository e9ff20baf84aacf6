//! One play session against the progress store: each verdict counts in both, and a round
//! either moves the session on or, once every bird is learned, completes the pack.

use vstd::prelude::*;
use crate::date::Date;
use crate::pack::Pack;
use crate::quiz::{
    after_verdict, can_age, is_learned, next_choices, next_pack, rotation, sorted_by_weight, Game,
};
use crate::stats::{days_after_completion, packs_after_completion, stats_of, BirdStats, Stats};

verus! {

/// Records a verdict on the current round: in the session, on the bird to identify, and in
/// the progress store, on that bird and on the streak of correct answers.
pub fn record_verdict(game: &mut Game, stats: &mut Stats, correct: bool)
    requires
        correct ==> old(game).choice_items()[0].identified < u32::MAX,
        correct ==> old(game).choice_items()[0].consecutively_identified < u32::MAX,
        !correct ==> old(game).choice_items()[0].mistaken < u32::MAX,
        correct ==> old(stats).current() < u32::MAX,
        correct ==> stats_of(old(stats).bird_map(), old(game).choice_items()[0].bird.id).identified
            < u32::MAX,
        !correct ==> stats_of(old(stats).bird_map(), old(game).choice_items()[0].bird.id).mistaken
            < u32::MAX,
    ensures
        final(game).choice_items() == old(game).choice_items().update(
            0,
            after_verdict(old(game).choice_items()[0], correct),
        ),
        final(game).pack_items() == old(game).pack_items(),
        final(game).was_learned() == old(game).was_learned(),
        ({
            let id = old(game).choice_items()[0].bird.id;
            let b = stats_of(old(stats).bird_map(), id);
            &&& correct ==> final(stats).bird_map() == old(stats).bird_map().insert(
                id,
                BirdStats {
                    identified: (b.identified + 1) as u32,
                    learned: b.learned || is_learned(after_verdict(old(game).choice_items()[0], true)),
                    ..b
                },
            )
            &&& correct ==> final(stats).current() == old(stats).current() + 1
            &&& correct ==> final(stats).record() == if old(stats).current() + 1 > old(stats).record() {
                (old(stats).current() + 1) as u32
            } else {
                old(stats).record()
            }
            &&& !correct ==> final(stats).bird_map() == old(stats).bird_map().insert(
                id,
                BirdStats { mistaken: (b.mistaken + 1) as u32, ..b },
            )
            &&& !correct ==> final(stats).current() == 0
            &&& !correct ==> final(stats).record() == old(stats).record()
        }),
        final(stats).daily() == old(stats).daily(),
        final(stats).pack_entries() == old(stats).pack_entries(),
{
    game.record_choice(correct);
    let choice = game.correct_choice();
    if correct {
        stats.add_correct_id(choice.learned(), choice.bird.id);
    } else {
        stats.add_incorrect_id(choice.bird.id);
    }
}

/// Ends a round on `today`: if every bird of the session is learned, records the pack as
/// completed and returns `true`; else moves the session on to the next round and returns
/// `false`.
pub fn finish_round(game: &mut Game, stats: &mut Stats, pack: &Pack, today: Date) -> (r: bool)
    requires
        old(stats).can_count_completion(pack.birdpack_id),
        forall|i: int|
            rotation(*old(game)) <= i < old(game).pack_items().len() ==> can_age(
                #[trigger] old(game).pack_items()[i],
            ),
    ensures
        r == forall|i: int|
            0 <= i < old(game).items().len() ==> is_learned(#[trigger] old(game).items()[i]),
        r ==> *final(game) == *old(game),
        r ==> final(stats).daily() == days_after_completion(old(stats).daily(), pack.id, today),
        r ==> final(stats).bird_entries() == old(stats).bird_entries(),
        r ==> final(stats).pack_map() == packs_after_completion(
            old(stats).pack_map(),
            pack.birdpack_id,
        ),
        r ==> final(stats).current() == old(stats).current(),
        r ==> final(stats).record() == old(stats).record(),
        !r ==> final(game).choice_items() == next_choices(*old(game)),
        !r ==> final(game).pack_items().to_multiset() == next_pack(*old(game)).to_multiset(),
        !r ==> sorted_by_weight(final(game).pack_items()),
        !r ==> final(game).was_learned() == old(game).was_learned(),
        !r ==> *final(stats) == *old(stats),
{
    if game.is_complete() {
        stats.add_pack_completed_on(pack, today);
        true
    } else {
        game.set_next_challenge();
        false
    }
}

} // verus!
