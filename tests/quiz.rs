use birdle::bird::{Bird, Sound};
use birdle::date::Date;
use birdle::pack::{Pack, PackIdentifier};
use birdle::quiz::{sort_by_weight, BirdContext, Game, MULTIPLE_CHOICE_SIZE};
use birdle::session::{finish_round, record_verdict};
use birdle::stats::{Stats, LEARN_THRESHOLD};

fn bird(id: u64) -> Bird {
    Bird {
        id,
        common_name: format!("bird {id}"),
        scientific_name: format!("avis {id}"),
        image: format!("img/{id}.jpg"),
        sounds: vec![Sound { path: format!("snd/{id}.mp3"), default_: true }],
    }
}

fn birds(n: u64) -> Vec<Bird> {
    (1..=n).map(bird).collect()
}

fn ids(cs: &[BirdContext]) -> Vec<u64> {
    cs.iter().map(|c| c.bird.id).collect()
}

#[test]
fn init_without_shuffle_keeps_order() {
    let game = Game::init(birds(6), false);
    assert_eq!(ids(game.choices()), vec![1, 2, 3, 4]);
    assert_eq!(game.correct_choice().bird.id, 1);
    assert_eq!(game.correct_bird().id, 1);
    let copies = game.birds();
    assert_eq!(copies.iter().map(|b| b.id).collect::<Vec<_>>(), vec![1, 2, 3, 4]);
    assert_eq!(copies[2].common_name, "bird 3");
    for c in game.choices() {
        assert_eq!(c.identified, 0);
        assert_eq!(c.last_seen, None);
    }
    assert!(!game.already_learned());
    assert_eq!(game.percent_complete(), 0);
    assert!(!game.is_complete());
}

#[test]
fn init_with_shuffle_keeps_the_birds() {
    let game = Game::init(birds(12), true);
    assert_eq!(game.choices().len(), MULTIPLE_CHOICE_SIZE);
    let mut seen = ids(game.choices());
    let mut g = game;
    // Walk through every round once: every bird shows up.
    for _ in 0..3 {
        g.set_next_challenge();
        seen.extend(ids(g.choices()));
    }
    seen.sort();
    seen.dedup();
    assert_eq!(seen, (1..=12).collect::<Vec<u64>>());
}

#[test]
fn record_choice_updates_only_the_correct_choice() {
    let mut game = Game::init(birds(8), false);
    game.record_choice(true);
    game.record_choice(true);
    let c = game.correct_choice();
    assert_eq!((c.identified, c.consecutively_identified, c.mistaken), (2, 2, 0));
    game.record_choice(false);
    let c = game.correct_choice();
    assert_eq!((c.identified, c.consecutively_identified, c.mistaken), (2, 0, 1));
    for c in &game.choices()[1..] {
        assert_eq!((c.identified, c.consecutively_identified, c.mistaken), (0, 0, 0));
    }
}

#[test]
fn correct_choice_mut_changes_the_first_choice() {
    let mut game = Game::init(birds(4), false);
    game.correct_choice_mut().mistaken = 9;
    assert_eq!(game.choices()[0].mistaken, 9);
}

#[test]
fn next_challenge_rotates_in_the_pack() {
    let mut game = Game::init(birds(8), false);
    game.set_next_challenge();
    assert_eq!(ids(game.choices()), vec![5, 6, 7, 8]);
    for c in game.choices() {
        assert_eq!(c.last_seen, Some(0));
    }
    game.set_next_challenge();
    let mut now = ids(game.choices());
    now.sort();
    assert_eq!(now, vec![1, 2, 3, 4]);
    for c in game.choices() {
        assert_eq!(c.last_seen, Some(0));
        assert!(!(5..=8).contains(&c.bird.id));
    }
}

#[test]
fn next_challenge_with_a_small_pack_keeps_the_round_full() {
    let mut game = Game::init(birds(6), false);
    game.set_next_challenge();
    assert_eq!(ids(game.choices()), vec![5, 6, 3, 4]);
    game.set_next_challenge();
    let mut now = ids(game.choices());
    assert_eq!(now.len(), MULTIPLE_CHOICE_SIZE);
    now.sort();
    assert_eq!(now, vec![1, 2, 3, 4]);
}

#[test]
fn next_challenge_with_no_pack_keeps_the_round() {
    let mut game = Game::init(birds(4), false);
    game.set_next_challenge();
    assert_eq!(ids(game.choices()), vec![1, 2, 3, 4]);
}

#[test]
fn pack_is_sorted_mistaken_birds_first() {
    let mut game = Game::init(birds(12), false);
    // Mistake bird 1 twice, learn bird 2.
    game.record_choice(false);
    game.record_choice(false);
    game.set_next_challenge();
    assert_eq!(ids(game.choices()), vec![5, 6, 7, 8]);
    game.set_next_challenge();
    // Never-seen birds weigh least and come next.
    let mut now = ids(game.choices());
    now.sort();
    assert_eq!(now, vec![9, 10, 11, 12]);
    game.set_next_challenge();
    // Then bird 1, mistaken twice, before the other birds seen as long ago.
    assert_eq!(game.correct_choice().bird.id, 1);
}

#[test]
fn weight_follows_the_formula() {
    let mut c = BirdContext::from_bird(bird(1));
    assert_eq!(c.weight(), -5);
    c.mistaken = 2;
    c.last_seen = Some(7);
    c.consecutively_identified = LEARN_THRESHOLD;
    assert!(c.learned());
    assert_eq!(c.weight(), 10 - 2 - 5);
    c.last_seen = Some(1);
    assert_eq!(c.weight(), 10 - 2 - 1);
    c.consecutively_identified = LEARN_THRESHOLD - 1;
    assert!(!c.learned());
    assert_eq!(c.weight(), -3);
}

#[test]
fn sort_by_weight_orders_the_birds() {
    let mut items = Vec::new();
    for (id, mistaken, last_seen) in [(1, 0, Some(0)), (2, 3, None), (3, 0, Some(0)), (4, 1, Some(2))] {
        let mut c = BirdContext::from_bird(bird(id));
        c.mistaken = mistaken;
        c.last_seen = last_seen;
        items.push(c);
    }
    let sorted = sort_by_weight(items);
    assert_eq!(ids(&sorted), vec![2, 4, 1, 3]);
}

#[test]
fn percent_and_completion() {
    let mut game = Game::init(birds(8), false);
    for _ in 0..LEARN_THRESHOLD {
        game.record_choice(true);
    }
    assert!(game.correct_choice().learned());
    assert_eq!(game.percent_complete(), 12);
    assert!(!game.is_complete());
    let mut rounds = 0;
    while !game.is_complete() {
        for _ in 0..LEARN_THRESHOLD {
            game.record_choice(true);
        }
        game.set_next_challenge();
        rounds += 1;
        assert!(rounds < 100);
    }
    assert_eq!(game.percent_complete(), 100);
}

#[test]
fn session_records_verdicts_and_completion() {
    let day = Date::from_days(738950).unwrap();
    let pack = Pack { id: PackIdentifier::Date(day), birds: birds(8), birdpack_id: Some(2) };
    let mut game = Game::init(birds(8), false);
    let mut stats = Stats::new();
    record_verdict(&mut game, &mut stats, false);
    assert_eq!(stats.current_streak(), 0);
    assert!(!finish_round(&mut game, &mut stats, &pack, day));
    let mut rounds = 0;
    loop {
        for _ in 0..LEARN_THRESHOLD {
            record_verdict(&mut game, &mut stats, true);
        }
        if finish_round(&mut game, &mut stats, &pack, day) {
            break;
        }
        rounds += 1;
        assert!(rounds < 100);
    }
    assert_eq!(stats.total_birds_learned(), 8);
    assert_eq!(stats.daily_packs_completed(), &[day][..]);
    assert!(stats.record_streak() >= 24);
    assert_eq!(stats.pack_stats().len(), 1);
}

#[test]
fn finishing_a_catalog_pack_counts_its_completion() {
    let day = Date::from_days(738950).unwrap();
    let pack = Pack { id: PackIdentifier::Id(6), birds: birds(8), birdpack_id: Some(6) };
    let mut game = Game::init(birds(8), false);
    let mut stats = Stats::new();
    let mut rounds = 0;
    loop {
        for _ in 0..LEARN_THRESHOLD {
            game.record_choice(true);
        }
        if finish_round(&mut game, &mut stats, &pack, day) {
            break;
        }
        rounds += 1;
        assert!(rounds < 100);
    }
    assert_eq!(stats.pack_stats(), &[(6, birdle::stats::BirdPackStats { times_completed: 1 })][..]);
    assert!(stats.daily_packs_completed().is_empty());
    assert_eq!(stats.current_streak(), 0);
    assert!(stats.birds_learned().is_empty());
}
