use ffgh::error::Error;
use ffgh::gh::{Author, Meta, PullRequest, Repository, Timestamp};
use ffgh::storage::{
    add_note, cycle_note, default_view_mode, get_pr_for_url, get_pr_state_flags,
    mark_url_as_muted, mark_url_as_opened, snapshot_from, user_state_from, FileStep, FileStorage,
    Loaded, PrState, UrlStates, UserSettings, UserState, HAS_NEW_COMMENTS, IS_NEW, IS_UPDATED,
};

fn stored(url: &str, comments: i32, updated: i64) -> PullRequest {
    PullRequest {
        author: Author {
            id: "U1".to_string(),
            is_bot: false,
            login: "octo".to_string(),
            author_type: "User".to_string(),
            url: "https://example.test/octo".to_string(),
        },
        body: "body".to_string(),
        comments_count: comments,
        created_at: Timestamp::new(10, 0),
        id: "PR_1".to_string(),
        number: 1,
        repository: Repository {
            name: "repo".to_string(),
            name_with_owner: "octo/repo".to_string(),
        },
        title: "title".to_string(),
        updated_at: Timestamp::new(updated, 0),
        url: url.to_string(),
        state: "open".to_string(),
        meta: Meta::default(),
    }
}

fn remembered(opened_at: Option<i64>, comments: i32) -> PrState {
    PrState {
        opened_at: opened_at.map(|secs| Timestamp::new(secs, 0)),
        last_comment_count: comments,
        note: String::new(),
        is_mute: false,
    }
}

fn dump(state: &UserState) -> String {
    format!("{state:?}")
}

#[test]
fn file_storage_uses_the_usual_names() {
    let storage = FileStorage::new();
    assert_eq!(storage.prs_state_path, "gh_daemon_state.json");
    assert_eq!(storage.user_state_path, "gh_user_state.json");
    let copy = storage.clone();
    assert_eq!(copy.prs_state_path, storage.prs_state_path);
    assert_eq!(copy.user_state_path, storage.user_state_path);
}

#[test]
fn defaults_remember_nothing() {
    assert_eq!(default_view_mode(), "regular");
    assert_eq!(UserSettings::default().view_mode, "regular");
    let state = UserState::default();
    assert_eq!(state.per_url.len(), 0);
    assert_eq!(state.settings.view_mode, "regular");
    let untouched = PrState::default();
    assert_eq!(untouched.opened_at, None);
    assert_eq!(untouched.last_comment_count, 0);
    assert_eq!(untouched.note, "");
    assert!(!untouched.is_mute);
}

#[test]
fn more_comments_than_remembered_sets_the_comment_flag() {
    let pr = stored("u", 5, 100);
    let flags = get_pr_state_flags(&pr, &remembered(Some(100), 2));
    assert_eq!(flags, HAS_NEW_COMMENTS);
    assert_eq!(get_pr_state_flags(&pr, &remembered(Some(100), 5)), 0);
    assert_eq!(get_pr_state_flags(&pr, &remembered(Some(100), 6)), 0);
}

#[test]
fn a_pull_request_never_opened_is_new_and_not_updated() {
    let pr = stored("u", 0, 100);
    let flags = get_pr_state_flags(&pr, &remembered(None, 0));
    assert_eq!(flags & IS_NEW, IS_NEW);
    assert_eq!(flags & IS_UPDATED, 0);
    assert_eq!(flags, IS_NEW);
}

#[test]
fn an_update_one_second_after_opening_sets_the_update_flag() {
    let pr = stored("u", 0, 101);
    let flags = get_pr_state_flags(&pr, &remembered(Some(100), 0));
    assert_eq!(flags, IS_UPDATED);
    assert_eq!(get_pr_state_flags(&stored("u", 0, 100), &remembered(Some(100), 0)), 0);
    assert_eq!(get_pr_state_flags(&stored("u", 0, 99), &remembered(Some(100), 0)), 0);
}

#[test]
fn flags_combine() {
    assert_eq!(HAS_NEW_COMMENTS, 1);
    assert_eq!(IS_UPDATED, 2);
    assert_eq!(IS_NEW, 4);
    let pr = stored("u", 3, 101);
    assert_eq!(get_pr_state_flags(&pr, &remembered(None, 0)), IS_NEW | HAS_NEW_COMMENTS);
    assert_eq!(get_pr_state_flags(&pr, &remembered(Some(100), 0)), IS_UPDATED | HAS_NEW_COMMENTS);
}

#[test]
fn an_update_by_nanoseconds_counts() {
    let mut pr = stored("u", 0, 100);
    pr.updated_at = Timestamp::new(100, 1);
    assert_eq!(get_pr_state_flags(&pr, &remembered(Some(100), 0)), IS_UPDATED);
}

#[test]
fn url_states_remember_by_url() {
    let mut states = UrlStates::new();
    assert_eq!(states.len(), 0);
    assert!(states.get("u1").is_none());
    assert!(!states.contains("u1"));
    states.insert("u1".to_string(), remembered(Some(1), 1));
    states.insert("u2".to_string(), remembered(Some(2), 2));
    assert_eq!(states.len(), 2);
    assert!(states.contains("u1"));
    assert_eq!(states.get("u1").unwrap().last_comment_count, 1);
    assert_eq!(states.get("u2").unwrap().last_comment_count, 2);
    assert!(states.get("u3").is_none());
}

#[test]
fn inserting_for_a_known_url_replaces_its_state() {
    let mut states = UrlStates::new();
    states.insert("u1".to_string(), remembered(Some(1), 1));
    states.insert("u2".to_string(), remembered(Some(2), 2));
    states.insert("u1".to_string(), remembered(Some(9), 9));
    assert_eq!(states.len(), 2);
    assert_eq!(states.get("u1").unwrap().last_comment_count, 9);
    assert_eq!(states.get("u2").unwrap().last_comment_count, 2);
    assert_eq!(states.entry(0).url, "u1");
    assert_eq!(states.entry(0).state.opened_at, Some(Timestamp::new(9, 0)));
    assert_eq!(states.entry(1).url, "u2");
}

#[test]
fn looking_up_a_pull_request_by_url() {
    let prs = vec![stored("u1", 1, 1), stored("u2", 2, 2)];
    let pr = get_pr_for_url(&prs, "u2").unwrap();
    assert_eq!(format!("{pr:?}"), format!("{:?}", prs[1]));
}

#[test]
fn a_url_that_is_not_in_the_snapshot_is_not_found() {
    let prs = vec![stored("u1", 1, 1)];
    match get_pr_for_url(&prs, "stale") {
        Err(Error::NotFound { url }) => assert_eq!(url, "stale"),
        other => panic!("unexpected outcome {other:?}"),
    }
}

#[test]
fn marking_opened_records_update_time_and_comments() {
    let prs = vec![stored("u1", 3, 100)];
    let mut state = UserState::default();
    assert!(matches!(mark_url_as_opened(&prs, &mut state, "u1"), Ok(true)));
    let entry = state.per_url.get("u1").unwrap();
    assert_eq!(entry.opened_at, Some(Timestamp::new(100, 0)));
    assert_eq!(entry.last_comment_count, 3);
    assert_eq!(entry.note, "");
    assert!(!entry.is_mute);
    assert_eq!(state.settings.view_mode, "regular");
}

#[test]
fn marking_opened_twice_changes_nothing_the_second_time() {
    let prs = vec![stored("u1", 3, 100)];
    let mut state = UserState::default();
    assert!(matches!(mark_url_as_opened(&prs, &mut state, "u1"), Ok(true)));
    let after_first = dump(&state);
    assert!(matches!(mark_url_as_opened(&prs, &mut state, "u1"), Ok(false)));
    assert_eq!(dump(&state), after_first);
}

#[test]
fn marking_opened_again_after_a_change_records_it() {
    let mut state = UserState::default();
    assert!(matches!(mark_url_as_opened(&vec![stored("u1", 3, 100)], &mut state, "u1"), Ok(true)));
    assert!(matches!(mark_url_as_opened(&vec![stored("u1", 4, 100)], &mut state, "u1"), Ok(true)));
    assert_eq!(state.per_url.get("u1").unwrap().last_comment_count, 4);
    assert!(matches!(mark_url_as_opened(&vec![stored("u1", 4, 150)], &mut state, "u1"), Ok(true)));
    assert_eq!(state.per_url.get("u1").unwrap().opened_at, Some(Timestamp::new(150, 0)));
    assert!(matches!(mark_url_as_opened(&vec![stored("u1", 4, 150)], &mut state, "u1"), Ok(false)));
}

#[test]
fn marking_opened_keeps_note_and_mute() {
    let mut state = UserState::default();
    add_note(&mut state, "u1", "look, again!");
    mark_url_as_muted(&mut state, "u1");
    assert!(state.mark_opened(&stored("u1", 3, 100)));
    let entry = state.per_url.get("u1").unwrap();
    assert_eq!(entry.note, "look, again!");
    assert!(entry.is_mute);
    assert_eq!(entry.opened_at, Some(Timestamp::new(100, 0)));
}

#[test]
fn marking_a_stale_url_fails_and_changes_nothing() {
    let prs = vec![stored("u1", 3, 100)];
    let mut state = UserState::default();
    let before = dump(&state);
    match mark_url_as_opened(&prs, &mut state, "gone") {
        Err(Error::NotFound { url }) => assert_eq!(url, "gone"),
        other => panic!("unexpected outcome {other:?}"),
    }
    assert_eq!(dump(&state), before);
}

#[test]
fn muting_flips_the_flag() {
    let mut state = UserState::default();
    mark_url_as_muted(&mut state, "u1");
    assert!(state.per_url.get("u1").unwrap().is_mute);
    assert_eq!(state.per_url.get("u1").unwrap().opened_at, None);
    mark_url_as_muted(&mut state, "u1");
    assert!(!state.per_url.get("u1").unwrap().is_mute);
    assert_eq!(state.per_url.len(), 1);
}

#[test]
fn a_note_replaces_the_earlier_one() {
    let mut state = UserState::default();
    add_note(&mut state, "u1", "first");
    add_note(&mut state, "u1", "second; with \"punctuation\", {braces} & more");
    let entry = state.per_url.get("u1").unwrap();
    assert_eq!(entry.note, "second; with \"punctuation\", {braces} & more");
    assert_eq!(entry.opened_at, None);
    add_note(&mut state, "u1", "");
    assert_eq!(state.per_url.get("u1").unwrap().note, "");
}

#[test]
fn state_for_an_unknown_url_is_the_untouched_state() {
    let state = UserState::default();
    let untouched = state.state_for("nowhere");
    assert_eq!(format!("{untouched:?}"), format!("{:?}", PrState::default()));
}

#[test]
fn notes_cycle_through_the_annotations_and_then_none() {
    let annotations = vec!["Approved".to_string(), "Waiting".to_string()];
    let mut state = UserState::default();
    assert!(cycle_note(&mut state, &annotations, "u1").is_ok());
    assert_eq!(state.per_url.get("u1").unwrap().note, "Approved");
    assert!(cycle_note(&mut state, &annotations, "u1").is_ok());
    assert_eq!(state.per_url.get("u1").unwrap().note, "Waiting");
    assert!(cycle_note(&mut state, &annotations, "u1").is_ok());
    assert_eq!(state.per_url.get("u1").unwrap().note, "");
    assert!(cycle_note(&mut state, &annotations, "u1").is_ok());
    assert_eq!(state.per_url.get("u1").unwrap().note, "Approved");
}

#[test]
fn cycling_from_a_note_of_ones_own_starts_over() {
    let annotations = vec!["Approved".to_string()];
    let mut state = UserState::default();
    add_note(&mut state, "u1", "my own words");
    assert!(cycle_note(&mut state, &annotations, "u1").is_ok());
    assert_eq!(state.per_url.get("u1").unwrap().note, "Approved");
}

#[test]
fn cycling_without_annotations_fails() {
    let mut state = UserState::default();
    let before = dump(&state);
    assert!(matches!(cycle_note(&mut state, &Vec::new(), "u1"), Err(Error::NoAnnotations)));
    assert_eq!(dump(&state), before);
}

#[test]
fn a_missing_snapshot_is_reported() {
    assert!(matches!(snapshot_from(Loaded::Missing), Err(Error::NoSnapshot)));
}

#[test]
fn an_undecodable_snapshot_is_corrupt() {
    assert!(matches!(snapshot_from(Loaded::Unreadable), Err(Error::Corrupt)));
}

#[test]
fn a_decoded_snapshot_is_handed_on() {
    let prs = vec![stored("u1", 1, 1)];
    let snapshot = snapshot_from(Loaded::Decoded(prs.clone())).unwrap();
    assert_eq!(format!("{snapshot:?}"), format!("{prs:?}"));
}

#[test]
fn a_missing_user_state_is_the_default_one() {
    let state = user_state_from(Loaded::Missing).unwrap();
    assert_eq!(dump(&state), dump(&UserState::default()));
}

#[test]
fn an_undecodable_user_state_is_corrupt() {
    assert!(matches!(user_state_from(Loaded::Unreadable), Err(Error::Corrupt)));
}

#[test]
fn a_decoded_user_state_is_handed_on() {
    let mut stored_state = UserState::default();
    add_note(&mut stored_state, "u1", "note");
    let expected = dump(&stored_state);
    let state = user_state_from(Loaded::Decoded(stored_state)).unwrap();
    assert_eq!(dump(&state), expected);
}

#[test]
fn writing_at_once_goes_through_a_file_beside_the_target() {
    let steps = FileStorage::write_at_once("dir/state.json", vec![1, 2, 3]);
    assert_eq!(steps.len(), 3);
    match &steps[0] {
        FileStep::Discard(path) => assert_eq!(path, "dir/state.json.temp"),
        other => panic!("unexpected step {other:?}"),
    }
    match &steps[1] {
        FileStep::Write(path, data) => {
            assert_eq!(path, "dir/state.json.temp");
            assert_eq!(data, &vec![1u8, 2, 3]);
        }
        other => panic!("unexpected step {other:?}"),
    }
    match &steps[2] {
        FileStep::Rename(from, to) => {
            assert_eq!(from, "dir/state.json.temp");
            assert_eq!(to, "dir/state.json");
        }
        other => panic!("unexpected step {other:?}"),
    }
}

fn perform(files: &mut Vec<(String, Vec<u8>)>, step: &FileStep) {
    match step {
        FileStep::Discard(path) => files.retain(|(name, _)| name != path),
        FileStep::Write(path, data) => {
            files.retain(|(name, _)| name != path);
            files.push((path.clone(), data.clone()));
        }
        FileStep::Rename(from, to) => {
            if let Some(at) = files.iter().position(|(name, _)| name == from) {
                let (_, data) = files.remove(at);
                files.retain(|(name, _)| name != to);
                files.push((to.clone(), data));
            }
        }
    }
}

fn content(files: &[(String, Vec<u8>)], path: &str) -> Option<Vec<u8>> {
    files.iter().find(|(name, _)| name == path).map(|(_, data)| data.clone())
}

#[test]
fn an_interrupted_write_leaves_the_target_intact() {
    for done in 0..3 {
        let mut files = vec![("state.json".to_string(), b"old".to_vec())];
        let steps = FileStorage::write_at_once("state.json", b"new".to_vec());
        for step in steps.iter().take(done) {
            perform(&mut files, step);
        }
        assert_eq!(content(&files, "state.json"), Some(b"old".to_vec()), "after {done} steps");
        let again = FileStorage::write_at_once("state.json", b"newer".to_vec());
        for step in again.iter() {
            perform(&mut files, step);
        }
        assert_eq!(content(&files, "state.json"), Some(b"newer".to_vec()));
        assert_eq!(content(&files, "state.json.temp"), None);
        assert_eq!(files.len(), 1);
    }
}

#[test]
fn a_complete_write_replaces_the_target() {
    let mut files = vec![
        ("state.json".to_string(), b"old".to_vec()),
        ("state.json.temp".to_string(), b"torn".to_vec()),
    ];
    for step in FileStorage::write_at_once("state.json", b"new".to_vec()).iter() {
        perform(&mut files, step);
    }
    assert_eq!(content(&files, "state.json"), Some(b"new".to_vec()));
    assert_eq!(content(&files, "state.json.temp"), None);
}

#[test]
fn the_first_write_creates_the_target() {
    let mut files: Vec<(String, Vec<u8>)> = Vec::new();
    for step in FileStorage::write_at_once("state.json", b"new".to_vec()).iter() {
        perform(&mut files, step);
    }
    assert_eq!(content(&files, "state.json"), Some(b"new".to_vec()));
    assert_eq!(files.len(), 1);
}
