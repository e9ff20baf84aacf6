use birdle::date::{today, Date};
use birdle::pack::{Pack, PackIdentifier};
use birdle::stats::{BirdPackStats, BirdStats, Stats};

fn with_days(days: Vec<Date>) -> Stats {
    Stats::restore(vec![], vec![], days, 0, 0).unwrap()
}

fn daily_pack(day: Date, birdpack_id: Option<u64>) -> Pack {
    Pack { id: PackIdentifier::Date(day), birds: vec![], birdpack_id }
}

#[test]
fn active_streak_can_start_yesterday() {
    let yesterday = today().pred().unwrap();
    let stats = with_days(vec![yesterday.pred().unwrap(), yesterday]);

    assert_eq!(stats.active_daily_pack_streak(), 2);
}

#[test]
fn active_pack_streak_can_start_today() {
    let today = today();
    let stats = with_days(vec![today.pred().unwrap(), today]);
    assert_eq!(stats.latest_daily_pack_streak(), 2);
}

#[test]
fn daily_pack_streak_lost_works() {
    let today = today();
    let yesterday = today.pred().unwrap();
    let yyesterday = yesterday.pred().unwrap();
    let yyyesterday = yyesterday.pred().unwrap();
    let stats = with_days(vec![yyyesterday, yyesterday]);

    assert_eq!(stats.active_daily_pack_streak(), 0);
    assert_eq!(stats.latest_daily_pack_streak(), 2);

    // skip yesterday
    let stats = with_days(vec![yyyesterday, yyesterday, today]);

    assert_eq!(stats.active_daily_pack_streak(), 1);
    assert_eq!(stats.latest_daily_pack_streak(), 1);
}

#[test]
fn lapsed_streak_on_a_fixed_day() {
    let d = Date::from_days(738950).unwrap();
    let d1 = d.pred().unwrap();
    let d2 = d1.pred().unwrap();
    let d3 = d2.pred().unwrap();
    let stats = with_days(vec![d3, d2]);
    assert_eq!(stats.active_daily_pack_streak_on(d), 0);
    assert_eq!(stats.latest_daily_pack_streak(), 2);
    let stats = with_days(vec![d3, d2, d]);
    assert_eq!(stats.active_daily_pack_streak_on(d), 1);
    assert_eq!(stats.latest_daily_pack_streak(), 1);
}

#[test]
fn streak_of_an_empty_record_is_zero() {
    let stats = Stats::new();
    assert_eq!(stats.latest_daily_pack_streak(), 0);
    assert_eq!(stats.active_daily_pack_streak_on(today()), 0);
}

#[test]
fn streak_counts_only_the_last_run() {
    let d = Date::from_days(1000).unwrap();
    let days: Vec<Date> = [990, 991, 992, 995, 998, 999, 1000]
        .iter()
        .map(|n| Date::from_days(*n).unwrap())
        .collect();
    let stats = with_days(days);
    assert_eq!(stats.latest_daily_pack_streak(), 3);
    assert_eq!(stats.active_daily_pack_streak_on(d), 3);
    assert_eq!(stats.active_daily_pack_streak_on(Date::from_days(1001).unwrap()), 3);
    assert_eq!(stats.active_daily_pack_streak_on(Date::from_days(1002).unwrap()), 0);
}

#[test]
fn restore_rejects_bad_records() {
    let a = Date::from_days(5).unwrap();
    let b = Date::from_days(6).unwrap();
    assert!(Stats::restore(vec![], vec![], vec![b, a], 0, 0).is_none());
    assert!(Stats::restore(vec![], vec![], vec![a, a], 0, 0).is_none());
    let s = BirdStats { identified: 1, mistaken: 0, learned: false };
    assert!(Stats::restore(vec![(1, s), (1, s)], vec![], vec![], 0, 0).is_none());
    let p = BirdPackStats { times_completed: 1 };
    assert!(Stats::restore(vec![], vec![(4, p), (4, p)], vec![], 0, 0).is_none());
    let r = Stats::restore(vec![(1, s), (2, s)], vec![(4, p)], vec![a, b], 3, 7).unwrap();
    assert_eq!(r.current_streak(), 3);
    assert_eq!(r.record_streak(), 7);
    assert_eq!(r.daily_packs_completed().len(), 2);
}

#[test]
fn xp_of_one_learned_and_one_unlearned_bird() {
    let learned = BirdStats { identified: 5, mistaken: 0, learned: true };
    let unlearned = BirdStats { identified: 2, mistaken: 4, learned: false };
    let stats = Stats::restore(vec![(1, learned), (2, unlearned)], vec![], vec![], 0, 0).unwrap();
    assert_eq!(stats.xp(), 17);
    assert_eq!(stats.total_birds_learned(), 1);
    assert_eq!(stats.birds_learned(), vec![1]);
    assert_eq!(stats.level(), 1);
}

#[test]
fn level_grows_every_fifteen_learned_birds() {
    let learned = BirdStats { identified: 3, mistaken: 0, learned: true };
    let entries: Vec<(u64, BirdStats)> = (0..31).map(|i| (i, learned)).collect();
    let stats = Stats::restore(entries, vec![], vec![], 0, 0).unwrap();
    assert_eq!(stats.total_birds_learned(), 31);
    assert_eq!(stats.level(), 3);
    assert_eq!(stats.xp(), 31 * 13);
}

#[test]
fn correct_and_incorrect_answers_update_counters() {
    let mut stats = Stats::new();
    stats.add_correct_id(false, 7);
    stats.add_correct_id(true, 7);
    stats.add_correct_id(false, 7);
    assert_eq!(stats.current_streak(), 3);
    assert_eq!(stats.record_streak(), 3);
    stats.add_incorrect_id(7);
    stats.add_incorrect_id(8);
    assert_eq!(stats.current_streak(), 0);
    assert_eq!(stats.record_streak(), 3);
    stats.add_correct_id(false, 8);
    assert_eq!(stats.current_streak(), 1);
    assert_eq!(stats.record_streak(), 3);
    let entries = stats.bird_stats();
    assert_eq!(entries.len(), 2);
    assert_eq!(entries[0], (7, BirdStats { identified: 3, mistaken: 1, learned: true }));
    assert_eq!(entries[1], (8, BirdStats { identified: 1, mistaken: 1, learned: false }));
    assert_eq!(stats.xp(), 10 + 3 + 1);
}

#[test]
fn completing_the_same_pack_twice_in_a_day_records_it_once() {
    let day = Date::from_days(738950).unwrap();
    let mut stats = Stats::new();
    let pack = daily_pack(day, Some(12));
    stats.add_pack_completed_on(&pack, day);
    stats.add_pack_completed_on(&pack, day);
    assert_eq!(stats.daily_packs_completed(), &[day][..]);
    assert_eq!(stats.pack_stats(), &[(12, BirdPackStats { times_completed: 2 })][..]);
}

#[test]
fn yesterdays_pack_counts_but_older_ones_do_not() {
    let today = Date::from_days(738950).unwrap();
    let yesterday = today.pred().unwrap();
    let before = yesterday.pred().unwrap();
    let mut stats = Stats::new();
    stats.add_pack_completed_on(&daily_pack(before, None), today);
    assert!(stats.daily_packs_completed().is_empty());
    stats.add_pack_completed_on(&daily_pack(yesterday, None), today);
    assert_eq!(stats.daily_packs_completed(), &[yesterday][..]);
    stats.add_pack_completed_on(&daily_pack(today, None), today);
    assert_eq!(stats.daily_packs_completed(), &[yesterday, today][..]);
    // A later completion of yesterday's pack is not recorded again.
    stats.add_pack_completed_on(&daily_pack(yesterday, None), today);
    assert_eq!(stats.daily_packs_completed(), &[yesterday, today][..]);
    assert!(stats.pack_stats().is_empty());
}

#[test]
fn catalog_pack_by_id_counts_completions_only() {
    let today = Date::from_days(738950).unwrap();
    let mut stats = Stats::new();
    let pack = Pack { id: PackIdentifier::Id(3), birds: vec![], birdpack_id: Some(3) };
    stats.add_pack_completed_on(&pack, today);
    let other = Pack { id: PackIdentifier::Birds(vec![1, 2]), birds: vec![], birdpack_id: None };
    stats.add_pack_completed_on(&other, today);
    assert_eq!(stats.pack_stats(), &[(3, BirdPackStats { times_completed: 1 })][..]);
    assert!(stats.daily_packs_completed().is_empty());
}

#[test]
fn checked_xp_reports_what_does_not_fit() {
    let big = BirdStats { identified: u32::MAX - 5, mistaken: 0, learned: true };
    let stats = Stats::restore(vec![(1, big)], vec![], vec![], 0, 0).unwrap();
    assert_eq!(stats.checked_xp(), None);
    let learned = BirdStats { identified: 5, mistaken: 0, learned: true };
    let unlearned = BirdStats { identified: 2, mistaken: 1, learned: false };
    let stats = Stats::restore(vec![(1, learned), (2, unlearned)], vec![], vec![], 0, 0).unwrap();
    assert_eq!(stats.checked_xp(), Some(17));
}

#[test]
fn completing_todays_pack_records_today() {
    let mut stats = Stats::new();
    let pack = daily_pack(today(), Some(1));
    stats.add_pack_completed(&pack);
    stats.add_pack_completed(&pack);
    assert_eq!(stats.daily_packs_completed().len(), 1);
    assert_eq!(stats.pack_stats(), &[(1, BirdPackStats { times_completed: 2 })][..]);
    assert_eq!(stats.active_daily_pack_streak(), 1);
}
