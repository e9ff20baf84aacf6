use birdle::bird::{storage_object_url, Bird, Sound};
use birdle::score::Score;
use birdle::text::{chars_of, join, parse_list_of, parse_u64_in, sorted_distinct, to_decimal};

#[test]
fn decimals_write_and_read() {
    assert_eq!(to_decimal(0), "0");
    assert_eq!(to_decimal(907), "907");
    assert_eq!(to_decimal(u64::MAX), "18446744073709551615");
    let cs = chars_of("a+12b");
    assert_eq!(parse_u64_in(&cs, 1, 4), Some(12));
    assert_eq!(parse_u64_in(&cs, 2, 4), Some(12));
    assert_eq!(parse_u64_in(&cs, 1, 2), None);
    assert_eq!(parse_u64_in(&cs, 0, 4), None);
    assert_eq!(parse_u64_in(&cs, 2, 2), None);
}

#[test]
fn lists_split_join_and_dedup() {
    assert_eq!(join(&[1, 22, 333], "."), "1.22.333");
    assert_eq!(join(&[], "."), "");
    assert_eq!(join(&[5], ", "), "5");
    assert_eq!(parse_list_of(&chars_of("4.4.1"), '.'), Some(vec![4, 4, 1]));
    assert_eq!(parse_list_of(&chars_of("4..1"), '.'), None);
    assert_eq!(parse_list_of(&chars_of(""), '.'), None);
    assert_eq!(sorted_distinct(&vec![5, 3, 5, 1, 3]), vec![1, 3, 5]);
}

#[test]
fn storage_urls() {
    assert_eq!(
        storage_object_url("http://127.0.0.1:54321", "bird_images/a.jpg"),
        "http://127.0.0.1:54321/storage/v1/object/public/bird_images/a.jpg"
    );
    let b = Bird {
        id: 1,
        common_name: "Cardinal".to_string(),
        scientific_name: "Cardinalis cardinalis".to_string(),
        image: "img.jpg".to_string(),
        sounds: vec![Sound { path: "call.mp3".to_string(), default_: true }],
    };
    assert_eq!(b.image_url("https://x"), "https://x/storage/v1/object/public/img.jpg");
    assert_eq!(b.default_sound_url("https://x"), "https://x/storage/v1/object/public/call.mp3");
    assert_eq!(b.id(), 1);
    let c = b.clone();
    assert!(c == b);
    assert_eq!(c.sounds[0].path, "call.mp3");
}

#[test]
fn score_counts_answers() {
    let mut s = Score::default();
    s.add_correct_id();
    s.add_correct_id();
    s.add_incorrect_id();
    s.add_correct_id();
    assert_eq!(s.xp(), 3);
    assert_eq!(s.level(), 0);
}
