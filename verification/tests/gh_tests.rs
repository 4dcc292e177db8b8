use ffgh::gh::{find_by_url, Author, Meta, PullRequest, Repository, Timestamp};

fn record(url: &str, number: i32) -> PullRequest {
    PullRequest {
        author: Author {
            id: "U1".to_string(),
            is_bot: false,
            login: "octo".to_string(),
            author_type: "User".to_string(),
            url: "https://example.test/octo".to_string(),
        },
        body: "body".to_string(),
        comments_count: 0,
        created_at: Timestamp::new(100, 0),
        id: format!("PR_{number}"),
        number,
        repository: Repository {
            name: "repo".to_string(),
            name_with_owner: "octo/repo".to_string(),
        },
        title: "title".to_string(),
        updated_at: Timestamp::new(200, 0),
        url: url.to_string(),
        state: "open".to_string(),
        meta: Meta::default(),
    }
}

#[test]
fn timestamp_new_keeps_its_parts() {
    let t = Timestamp::new(-5, 7);
    assert_eq!(t.secs, -5);
    assert_eq!(t.nanos, 7);
    assert_eq!(t, Timestamp { secs: -5, nanos: 7 });
}

#[test]
fn timestamps_are_ordered_by_seconds_then_nanoseconds() {
    let early = Timestamp::new(10, 999_999_999);
    let late = Timestamp::new(11, 0);
    assert!(late.is_after(&early));
    assert!(!early.is_after(&late));
    assert!(early.is_before(&late));
    assert!(!late.is_before(&early));
    let a = Timestamp::new(10, 1);
    let b = Timestamp::new(10, 2);
    assert!(b.is_after(&a));
    assert!(!a.is_after(&b));
    assert!(!a.is_after(&a));
    assert!(!a.is_before(&a));
}

#[test]
fn seconds_since_rounds_towards_zero() {
    let base = Timestamp::new(1_000, 500_000_000);
    assert_eq!(Timestamp::new(1_090, 500_000_000).seconds_since(&base), 90);
    assert_eq!(Timestamp::new(1_090, 499_999_999).seconds_since(&base), 89);
    assert_eq!(Timestamp::new(1_090, 900_000_000).seconds_since(&base), 90);
    assert_eq!(base.seconds_since(&base), 0);
    assert_eq!(base.seconds_since(&Timestamp::new(1_090, 500_000_000)), -90);
    assert_eq!(base.seconds_since(&Timestamp::new(1_090, 499_999_999)), -89);
    assert_eq!(base.seconds_since(&Timestamp::new(1_000, 900_000_000)), 0);
}

#[test]
fn seconds_since_is_held_to_the_range_of_the_result() {
    let first = Timestamp::new(i64::MIN, 0);
    let last = Timestamp::new(i64::MAX, 0);
    assert_eq!(last.seconds_since(&first), i64::MAX);
    assert_eq!(first.seconds_since(&last), i64::MIN);
}

#[test]
fn find_by_url_gives_the_first_position() {
    let prs = vec![record("u1", 1), record("u2", 2), record("u1", 3)];
    assert_eq!(find_by_url(&prs, "u1"), Some(0));
    assert_eq!(find_by_url(&prs, "u2"), Some(1));
    assert_eq!(find_by_url(&prs, "u3"), None);
    assert_eq!(find_by_url(&Vec::new(), "u1"), None);
}

#[test]
fn clones_are_field_for_field_copies() {
    let pr = record("u1", 7);
    let copy = pr.clone();
    assert_eq!(format!("{pr:?}"), format!("{copy:?}"));
}

#[test]
fn default_meta_has_no_label_and_is_not_muted() {
    let meta = Meta::default();
    assert_eq!(meta.label, "");
    assert!(!meta.default_mute);
}

fn instant(secs: i64, nanos: u32) -> chrono::DateTime<chrono::Utc> {
    chrono::DateTime::from_timestamp(secs, nanos).unwrap()
}

fn stamp(at: &chrono::DateTime<chrono::Utc>) -> Timestamp {
    Timestamp::new(at.timestamp(), at.timestamp_subsec_nanos())
}

#[test]
fn seconds_since_counts_as_the_calendar_does() {
    let instants = [
        instant(0, 0),
        instant(59, 999_999_999),
        instant(59, 1_000_000_000),
        instant(59, 1_500_000_000),
        instant(60, 0),
        instant(60, 500_000_000),
        instant(86_399, 1_999_999_999),
        instant(86_400, 0),
        instant(86_400 + 30, 1),
        instant(1_483_228_799, 1_250_000_000),
        instant(1_483_228_800, 0),
        instant(1_700_000_000, 123_456_789),
        instant(-1, 999_999_999),
        instant(-1, 1_000_000_001),
        instant(-86_400, 0),
        instant(-86_401, 1_750_000_000),
        instant(-1_000_000_000, 5),
    ];
    for later in instants {
        for earlier in instants {
            assert_eq!(
                stamp(&later).seconds_since(&stamp(&earlier)),
                (later - earlier).num_seconds(),
                "{later:?} - {earlier:?}"
            );
            assert_eq!(stamp(&later).is_after(&stamp(&earlier)), later > earlier);
        }
    }
}

#[test]
fn a_leap_second_is_counted_once_it_is_over() {
    let within = Timestamp::new(59, 1_000_000_000);
    assert_eq!(Timestamp::new(60, 0).seconds_since(&within), 1);
    assert_eq!(within.seconds_since(&Timestamp::new(60, 0)), -1);
    assert_eq!(within.seconds_since(&Timestamp::new(59, 0)), 1);
    assert_eq!(Timestamp::new(59, 1_999_999_999).seconds_since(&within), 0);
}

#[test]
fn the_second_of_the_day_starts_at_midnight() {
    assert_eq!(Timestamp::new(0, 0).day_second(), 0);
    assert_eq!(Timestamp::new(86_399, 0).day_second(), 86_399);
    assert_eq!(Timestamp::new(86_400, 7).day_second(), 0);
    assert_eq!(Timestamp::new(-1, 0).day_second(), 86_399);
    assert_eq!(Timestamp::new(-86_400, 0).day_second(), 0);
    assert_eq!(Timestamp::new(-86_401, 0).day_second(), 86_399);
    assert_eq!(Timestamp::new(i64::MIN, 0).day_second(), i64::MIN.rem_euclid(86_400));
    assert_eq!(Timestamp::new(i64::MAX, 0).day_second(), i64::MAX.rem_euclid(86_400));
}
