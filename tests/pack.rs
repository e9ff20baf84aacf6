use birdle::bird::{Bird, BirdPack};
use birdle::date::{today, Date, MAX_DAY, MIN_DAY};
use birdle::pack::{Pack, PackIdentifier};
use chrono::{Datelike, NaiveDate};

fn day(y: i32, m: u32, d: u32) -> Date {
    Date::from_days(NaiveDate::from_ymd_opt(y, m, d).unwrap().num_days_from_ce()).unwrap()
}

#[test]
fn day_range_matches_chrono() {
    assert_eq!(NaiveDate::MIN.num_days_from_ce(), MIN_DAY);
    assert_eq!(NaiveDate::MAX.num_days_from_ce(), MAX_DAY);
    assert!(Date::from_days(MIN_DAY).is_some());
    assert!(Date::from_days(MAX_DAY).is_some());
    assert!(Date::from_days(MIN_DAY - 1).is_none());
    assert!(Date::from_days(MAX_DAY + 1).is_none());
    assert!(Date::from_days(MIN_DAY).unwrap().pred().is_none());
    assert_eq!(Date::from_days(10).unwrap().pred().unwrap().days(), 9);
}

#[test]
fn today_is_chronos_local_day() {
    let expected = chrono::Local::now().date_naive().num_days_from_ce();
    let t = today().days();
    assert!(t == expected || t == expected + 1);
}

#[test]
fn iso_dates_read_and_write() {
    let d = Date::parse_iso("2024-03-05").unwrap();
    assert_eq!(d, day(2024, 3, 5));
    assert_eq!(d.days(), 738950);
    assert_eq!(d.to_iso(), "2024-03-05");
    assert!(Date::parse_iso("2024-02-30").is_none());
    assert!(Date::parse_iso("yesterday").is_none());
    assert!(d.is_today_or_yesterday(d));
    assert!(d.pred().unwrap().is_today_or_yesterday(d));
    assert!(!d.is_today_or_yesterday(d.pred().unwrap()));
}

#[test]
fn resolver_reads_an_id() {
    let t = day(2020, 1, 1);
    assert_eq!(PackIdentifier::resolve("42", t), PackIdentifier::Id(42));
    assert_eq!(PackIdentifier::resolve("+7", t), PackIdentifier::Id(7));
    assert_eq!(
        PackIdentifier::resolve("18446744073709551615", t),
        PackIdentifier::Id(u64::MAX)
    );
    // Too large for an id, and not a date or a list: the pack of the day.
    assert_eq!(PackIdentifier::resolve("18446744073709551616", t), PackIdentifier::Date(t));
}

#[test]
fn resolver_reads_a_date() {
    let t = day(2020, 1, 1);
    assert_eq!(
        PackIdentifier::resolve("2024-03-05", t),
        PackIdentifier::Date(day(2024, 3, 5))
    );
}

#[test]
fn resolver_reads_a_list_of_ten_distinct_birds() {
    let t = day(2020, 1, 1);
    assert_eq!(
        PackIdentifier::resolve("10.3.9.1.8.2.7.3.6.5.4", t),
        PackIdentifier::Birds(vec![1, 2, 3, 4, 5, 6, 7, 8, 9, 10])
    );
}

#[test]
fn resolver_rejects_a_list_of_too_few_distinct_birds() {
    let t = day(2020, 1, 1);
    // Ten ids, seven of them distinct.
    assert_eq!(PackIdentifier::resolve("3.1.4.1.5.9.2.6.5.3", t), PackIdentifier::Date(t));
    // Nine distinct ids.
    assert_eq!(PackIdentifier::resolve("1.2.3.4.5.6.7.8.9", t), PackIdentifier::Date(t));
    // A piece that is no id.
    assert_eq!(PackIdentifier::resolve("1.2.3.4.5.6.7.8.9.x", t), PackIdentifier::Date(t));
    assert_eq!(PackIdentifier::resolve("1.2.3.4.5.6.7.8.9.10.", t), PackIdentifier::Date(t));
}

#[test]
fn resolver_falls_back_to_the_day() {
    let t = day(2020, 1, 1);
    assert_eq!(PackIdentifier::resolve("", t), PackIdentifier::Date(t));
    assert_eq!(PackIdentifier::resolve("birds", t), PackIdentifier::Date(t));
    assert!(PackIdentifier::parse_query("").is_none());
    assert!(PackIdentifier::parse_query("birds").is_none());
    assert!(matches!(PackIdentifier::from_query("nothing"), PackIdentifier::Date(_)));
    assert_eq!(PackIdentifier::from_query("42"), PackIdentifier::Id(42));
    assert!(matches!(PackIdentifier::default(), PackIdentifier::Date(_)));
}

#[test]
fn tokens_name_selections() {
    assert_eq!(PackIdentifier::Id(42).to_token(), "42");
    assert_eq!(PackIdentifier::Id(0).to_token(), "0");
    assert_eq!(PackIdentifier::Date(day(2024, 3, 5)).to_token(), "2024-03-05");
    assert_eq!(PackIdentifier::Birds(vec![3, 1, 20]).to_token(), "3.1.20");
    let t = day(2020, 1, 1);
    let birds = PackIdentifier::Birds((1..=12).collect());
    assert_eq!(PackIdentifier::resolve(&birds.to_token(), t), birds);
}

fn bird(id: u64) -> Bird {
    Bird {
        id,
        common_name: String::new(),
        scientific_name: String::new(),
        image: String::new(),
        sounds: vec![],
    }
}

#[test]
fn packs_compare_by_catalog_id_first() {
    let a = Pack { id: PackIdentifier::Id(5), birds: vec![], birdpack_id: Some(5) };
    let b = Pack { id: PackIdentifier::Date(day(2024, 3, 5)), birds: vec![bird(1)], birdpack_id: Some(5) };
    assert!(a == b);
    let c = Pack { id: PackIdentifier::Birds(vec![1, 2]), birds: vec![], birdpack_id: None };
    let d = Pack { id: PackIdentifier::Birds(vec![1, 2]), birds: vec![bird(1)], birdpack_id: None };
    let e = Pack { id: PackIdentifier::Birds(vec![2, 1]), birds: vec![], birdpack_id: None };
    assert!(c == d);
    assert!(c != e);
    assert!(a != c);
}

#[test]
fn catalog_pack_becomes_a_pack() {
    let daily = BirdPack {
        id: 9,
        name: "Pack".to_string(),
        description: String::new(),
        birds: vec![bird(1), bird(2)],
        day: Some(day(2024, 3, 5)),
    };
    let p = Pack::from(daily);
    assert_eq!(p.id, PackIdentifier::Date(day(2024, 3, 5)));
    assert_eq!(p.birdpack_id, Some(9));
    assert_eq!(p.birds.len(), 2);
    let plain = BirdPack { id: 4, name: String::new(), description: String::new(), birds: vec![], day: None };
    let p = Pack::from(plain);
    assert_eq!(p.id, PackIdentifier::Id(4));
    assert_eq!(p.birdpack_id, Some(4));
}

#[test]
fn pack_identifier_from_a_token() {
    assert_eq!(PackIdentifier::from("42"), PackIdentifier::Id(42));
    assert_eq!(
        PackIdentifier::from("2024-03-05"),
        PackIdentifier::Date(day(2024, 3, 5))
    );
    assert_eq!(
        PackIdentifier::from("10.3.9.1.8.2.7.3.6.5.4"),
        PackIdentifier::Birds(vec![1, 2, 3, 4, 5, 6, 7, 8, 9, 10])
    );
    assert!(matches!(PackIdentifier::from("3.1.4.1.5.9.2.6.5.3"), PackIdentifier::Date(_)));
}
