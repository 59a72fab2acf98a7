use logquest::common::{random_id, ternary, Duration, LogQuestVersion, Timestamp, UUID};

#[test]
fn versions() {
    assert_eq!(LogQuestVersion::parse("1.2.3"), Some(LogQuestVersion(1, 2, 3)));
    assert_eq!(LogQuestVersion::parse("0.10.42"), Some(LogQuestVersion(0, 10, 42)));
    assert_eq!(LogQuestVersion::parse("1.2"), None);
    assert_eq!(LogQuestVersion::parse("1.2.3.4"), None);
    assert_eq!(LogQuestVersion::parse("1.x.3"), None);
    assert_eq!(LogQuestVersion::parse(""), None);
}

#[test]
fn ids_and_durations() {
    let id = UUID::new();
    assert_eq!(id.as_str().len(), 36);
    assert_ne!(UUID::new().as_str(), id.as_str());
    let r = random_id(12);
    assert_eq!(r.len(), 12);
    assert!(r.chars().all(|c| c.is_ascii_uppercase() || c.is_ascii_digit()));
    assert_eq!(Duration::from_secs(3).0, 3000);
    assert_eq!(Duration::from_millis(5).0, 5);
    assert_eq!(ternary(true, 1, 2), 1);
    assert_eq!(ternary(false, 1, 2), 2);
    let t = Timestamp(1000);
    assert_eq!(t.add(&Duration::from_secs(2)).0, 3000);
    assert_eq!(t.duration_until(&Timestamp(4000)), 3000);
    assert_eq!(Timestamp(4000).duration_until(&t), 0);
}

#[test]
fn clock_reads_the_current_time() {
    let a = Timestamp::now();
    assert!(a.0 > 1_600_000_000_000);
    let b = Timestamp::now();
    assert!(b.0 >= a.0);
}

#[test]
fn new_identifiers_are_hyphenated_version_four_uuids() {
    let id = logquest::common::UUID::new();
    let s: Vec<char> = id.as_str().chars().collect();
    assert_eq!(s.len(), 36);
    for (i, c) in s.iter().enumerate() {
        if [8, 13, 18, 23].contains(&i) {
            assert_eq!(*c, '-');
        } else {
            assert!(c.is_ascii_digit() || ('a'..='f').contains(c));
        }
    }
    assert_eq!(s[14], '4');
    assert!(['8', '9', 'a', 'b'].contains(&s[19]));
}

#[test]
fn now_lies_between_the_epoch_and_the_last_timestamp() {
    let t = Timestamp::now();
    assert!(t.0 > 1_600_000_000_000);
    assert!(t.0 <= logquest::common::MAX_TIMESTAMP_MILLIS);
}
