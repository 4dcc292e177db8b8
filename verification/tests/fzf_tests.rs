use colored::Colorize;
use ffgh::config::{Config, Query};
use ffgh::fzf::{
    ages, byline, comments, compose_row, flag_words, format_duration, header, headline,
    join_strings_cap_width, name_column_width, note_line, print_pull_requests,
    print_show_pull_request, short_label, PrettyDuration, RowPaints,
};
use ffgh::gh::{Author, Meta, PullRequest, Repository, Timestamp};
use ffgh::storage::{add_note, mark_url_as_muted, PrState, UserState};

const NBSP: &str = "\u{00A0}";

fn listed(url: &str, repo: &str, number: i32, title: &str, label: &str) -> PullRequest {
    PullRequest {
        author: Author {
            id: "U1".to_string(),
            is_bot: false,
            login: "octo".to_string(),
            author_type: "User".to_string(),
            url: "https://example.test/octo".to_string(),
        },
        body: "The body.\nSecond line.".to_string(),
        comments_count: 3,
        created_at: Timestamp::new(1_000, 0),
        id: "PR_1".to_string(),
        number,
        repository: Repository { name: repo.to_string(), name_with_owner: format!("octo/{repo}") },
        title: title.to_string(),
        updated_at: Timestamp::new(2_000, 0),
        url: url.to_string(),
        state: "open".to_string(),
        meta: Meta { label: label.to_string(), default_mute: false },
    }
}

fn plain_paints(note: &str) -> RowPaints {
    RowPaints {
        new: "N".to_string(),
        updated: "U".to_string(),
        commented: "C".to_string(),
        note: note.to_string(),
    }
}

fn opened(at: i64, comments: i32, note: &str) -> PrState {
    PrState {
        opened_at: Some(Timestamp::new(at, 0)),
        last_comment_count: comments,
        note: note.to_string(),
        is_mute: false,
    }
}

fn searches() -> Vec<Query> {
    vec![
        Query {
            github_arg: "--assignee=@me".to_string(),
            query_name: "Assignee".to_string(),
            short_name: "a".to_string(),
            mute: false,
        },
        Query {
            github_arg: "--mentions=@me".to_string(),
            query_name: "Mentions".to_string(),
            short_name: "m".to_string(),
            mute: true,
        },
        Query {
            github_arg: "--other".to_string(),
            query_name: "Assignee".to_string(),
            short_name: "second".to_string(),
            mute: false,
        },
    ]
}

#[test]
fn what_fits_is_put_side_by_side() {
    assert_eq!(join_strings_cap_width(20, "hello", " [n]"), "hello [n]");
    assert_eq!(join_strings_cap_width(9, "hello", " [n]"), "hello [n]");
    assert_eq!(join_strings_cap_width(0, "", ""), "");
    assert_eq!(join_strings_cap_width(3, "", "abc"), "abc");
}

#[test]
fn what_does_not_fit_is_cut_with_an_ellipsis() {
    assert_eq!(join_strings_cap_width(10, "hello world!", ""), "hello wor…");
    assert_eq!(join_strings_cap_width(8, "hello", " [n]"), "hel…");
    assert_eq!(join_strings_cap_width(5, "hello", " [n]"), "…");
    assert_eq!(join_strings_cap_width(4, "héllo…", ""), "hél…");
}

#[test]
fn without_room_beside_the_right_part_little_is_left() {
    assert_eq!(join_strings_cap_width(4, "hello", " [n]"), " [n]");
    assert_eq!(join_strings_cap_width(3, "hello", " [n]"), "");
    assert_eq!(join_strings_cap_width(0, "a", ""), "");
}

#[test]
fn the_joined_text_never_exceeds_the_width() {
    let lefts = ["", "a", "hello", "hello world, this is long", "héllo…wörld"];
    let rights = ["", " [n]", " [a long note]"];
    for width in 0..30usize {
        for left in lefts {
            for right in rights {
                let joined = join_strings_cap_width(width, left, right);
                assert!(joined.chars().count() <= width, "{width} {left:?} {right:?}");
            }
        }
    }
}

#[test]
fn durations_are_written_in_their_units() {
    let cases: [(i64, &str); 16] = [
        (0, "0s"),
        (1, "1s"),
        (59, "59s"),
        (60, "1m"),
        (61, "1m1s"),
        (3599, "59m59s"),
        (3600, "1h"),
        (3601, "1h1s"),
        (3660, "1h1m"),
        (3661, "1h1m"),
        (86399, "23h59m"),
        (86400, "1d"),
        (86401, "1d1s"),
        (90061, "1d1h1m1s"),
        (176400, "2d1h"),
        (864000 + 120, "10d2m"),
    ];
    for (seconds, expected) in cases {
        assert_eq!(PrettyDuration::from_duration(seconds).to_string(), expected, "{seconds}");
    }
}

#[test]
fn negative_durations_are_written_in_seconds() {
    assert_eq!(PrettyDuration::from_duration(-30).to_string(), "-30s");
    assert_eq!(PrettyDuration::from_duration(-90).to_string(), "-30s");
    assert_eq!(PrettyDuration::from_duration(-60).to_string(), "0s");
    assert_eq!(PrettyDuration::from_duration(i64::MIN).to_string(), "-8s");
}

#[test]
fn from_duration_keeps_the_seconds() {
    assert_eq!(PrettyDuration::from_duration(77).seconds, 77);
}

#[test]
fn rough_durations_use_the_largest_unit() {
    let cases: [(i64, &str); 11] = [
        (0, "0s"),
        (59, "59s"),
        (60, "1m"),
        (119, "1m"),
        (3599, "59m"),
        (3600, "1h"),
        (86399, "23h"),
        (86400, "1d"),
        (200000, "2d"),
        (-5, "-5s"),
        (-7200, "-7200s"),
    ];
    for (seconds, expected) in cases {
        assert_eq!(format_duration(seconds), expected, "{seconds}");
    }
}

#[test]
fn the_short_label_is_that_of_the_first_search_with_the_name() {
    let queries = searches();
    assert_eq!(short_label(&queries, &"Assignee".to_string()), "a");
    assert_eq!(short_label(&queries, &"Mentions".to_string()), "m");
    assert_eq!(short_label(&queries, &"Unknown".to_string()), " ");
    assert_eq!(short_label(&Vec::new(), &"Assignee".to_string()), " ");
}

#[test]
fn the_name_column_is_as_wide_as_the_longest_name_in_bytes() {
    let prs = vec![
        listed("u1", "ab", 1, "t", "A"),
        listed("u2", "abcd", 2, "t", "A"),
        listed("u3", "é…", 3, "t", "A"),
    ];
    assert_eq!(name_column_width(&prs), 5);
    assert_eq!(name_column_width(&prs[..2].to_vec()), 4);
    assert_eq!(name_column_width(&Vec::new()), 0);
}

#[test]
fn a_row_of_a_new_pull_request() {
    let pr = listed("https://x/1", "repo", 42, "Fix it", "Assignee");
    let row = compose_row(&pr, &PrState::default(), "a", 6, 120, &plain_paints(""));
    let left = [
        format!("N{NBSP}C"),
        format!("{:<6}", "repo"),
        "a".to_string(),
        format!("#{:<5}", 42),
        "Fix it".to_string(),
    ]
    .join(" ");
    assert_eq!(row, format!("https://x/1\t{left}"));
    assert_eq!(row, "https://x/1\tN\u{a0}C repo   a #42    Fix it");
}

#[test]
fn a_row_with_update_comments_and_note() {
    let pr = listed("https://x/1", "repo", 123456, "Fix it", "Assignee");
    let state = opened(1_999, 1, "Approved");
    let row = compose_row(&pr, &state, "a", 4, 120, &plain_paints("Approved"));
    assert_eq!(row, "https://x/1\t\u{a0}UC repo a #123456 Fix it [Approved]");
}

#[test]
fn a_quiet_row_has_three_blank_flags() {
    let pr = listed("https://x/1", "repo", -7, "Fix it", "Assignee");
    let state = opened(2_000, 3, "");
    let row = compose_row(&pr, &state, " ", 4, 120, &plain_paints(""));
    assert_eq!(row, "https://x/1\t\u{a0}\u{a0}\u{a0} repo   #-7    Fix it");
}

#[test]
fn a_row_is_cut_to_the_terminal_width() {
    let pr = listed("https://x/1", "repo", 42, "A rather long title", "Assignee");
    let state = opened(2_000, 3, "note");
    let row = compose_row(&pr, &state, "a", 4, 20, &plain_paints("note"));
    assert_eq!(row, "https://x/1\t\u{a0}\u{a0}\u{a0} repo a #…");
    let narrow = compose_row(&pr, &state, "a", 4, 43, &plain_paints("note"));
    assert_eq!(narrow, "https://x/1\t\u{a0}\u{a0}\u{a0} repo a #42    A rather long tit…");
    let wide = compose_row(&pr, &state, "a", 4, 44, &plain_paints("note"));
    assert_eq!(wide, "https://x/1\t\u{a0}\u{a0}\u{a0} repo a #42    A rather long title [note]");
}

#[test]
fn the_row_uses_the_paints_it_is_given() {
    let pr = listed("https://x/1", "repo", 42, "Fix it", "Assignee");
    let paints = RowPaints {
        new: "<N>".to_string(),
        updated: "<U>".to_string(),
        commented: "<C>".to_string(),
        note: "<note>".to_string(),
    };
    let mut state = PrState::default();
    state.note = "note".to_string();
    let row = compose_row(&pr, &state, "a", 4, 120, &paints);
    assert_eq!(row, "https://x/1\t<N>\u{a0}<C> repo a #42    Fix it [<note>]");
}

#[test]
fn picker_lines_are_coloured_where_not_muted() {
    colored::control::set_override(true);
    let mut config = Config::default();
    config.queries = searches();
    config.display_order = vec!["Mentions".to_string(), "Assignee".to_string()];
    let prs = vec![
        listed("https://x/2", "zeta", 2, "Second", "Assignee"),
        listed("https://x/1", "alpha", 1, "First", "Mentions"),
    ];
    let mut state = UserState::default();
    add_note(&mut state, "https://x/2", "Approved");
    let lines = print_pull_requests(200, &prs, &state, &config);
    assert_eq!(lines.len(), 2);
    let first_left = [
        format!("{}{NBSP}{}", "N".green(), "C".bright_yellow()),
        format!("{:<5}", "alpha"),
        "m".to_string(),
        format!("#{:<5}", 1),
        "First".to_string(),
    ]
    .join(" ");
    assert_eq!(lines[0], format!("https://x/1\t{first_left}"));
    let second_left = [
        format!("{}{NBSP}{}", "N".green(), "C".bright_yellow()),
        format!("{:<5}", "zeta"),
        "a".to_string(),
        format!("#{:<5}", 2),
        "Second".to_string(),
    ]
    .join(" ");
    assert_eq!(lines[1], format!("https://x/2\t{second_left} [{}]", "Approved".cyan()));
    assert_eq!(
        lines[0],
        "https://x/1\t\u{1b}[32mN\u{1b}[0m\u{a0}\u{1b}[93mC\u{1b}[0m alpha m #1     First"
    );
    assert_eq!(
        lines[1],
        "https://x/2\t\u{1b}[32mN\u{1b}[0m\u{a0}\u{1b}[93mC\u{1b}[0m zeta  a #2     Second \
         [\u{1b}[36mApproved\u{1b}[0m]"
    );
}

#[test]
fn an_updated_pull_request_has_a_bright_white_flag() {
    colored::control::set_override(true);
    let prs = vec![listed("https://x/1", "alpha", 1, "First", "Mentions")];
    let mut state = UserState::default();
    assert!(state.mark_opened(&prs[0]));
    let mut later = prs.clone();
    later[0].updated_at = Timestamp::new(2_001, 0);
    let lines = print_pull_requests(200, &later, &state, &Config::default());
    assert_eq!(
        lines,
        vec!["https://x/1\t\u{a0}\u{1b}[97mU\u{1b}[0m\u{a0} alpha   #1     First".to_string()]
    );
}

#[test]
fn muted_picker_lines_are_dimmed_as_a_whole() {
    colored::control::set_override(true);
    let mut config = Config::default();
    config.queries = searches();
    let prs = vec![listed("https://x/1", "alpha", 1, "First", "Mentions")];
    let mut state = UserState::default();
    add_note(&mut state, "https://x/1", "later");
    mark_url_as_muted(&mut state, "https://x/1");
    let lines = print_pull_requests(200, &prs, &state, &config);
    let plain = format!("https://x/1\tN{NBSP}C alpha m #1     First [later]");
    assert_eq!(lines, vec![plain.bright_black().to_string()]);
    assert_eq!(lines[0], format!("\u{1b}[90m{plain}\u{1b}[0m"));
}

#[test]
fn picker_lines_without_colours_are_plain_rows() {
    colored::control::set_override(false);
    let mut config = Config::default();
    config.queries = searches();
    let prs = vec![
        listed("https://x/1", "alpha", 1, "First", "Mentions"),
        listed("https://x/2", "be", 20, "Second", "Nobody"),
    ];
    let mut state = UserState::default();
    state.settings.view_mode = "hide-mute".to_string();
    mark_url_as_muted(&mut state, "https://x/1");
    let lines = print_pull_requests(200, &prs, &state, &config);
    assert_eq!(lines, vec![format!("https://x/2\tN{NBSP}C be   #20    Second")]);
}

#[test]
fn the_picker_shows_nothing_where_there_is_nothing() {
    let lines = print_pull_requests(80, &Vec::new(), &UserState::default(), &Config::default());
    assert!(lines.is_empty());
}

#[test]
fn the_parts_of_the_single_view() {
    let pr = listed("https://x/1", "repo", 42, "Fix it", "Assignee");
    assert_eq!(headline(&pr), "(#42) Fix it");
    assert_eq!(byline(&pr), "octo (Assignee)");
    assert_eq!(comments(&pr), "3 comment(s)");
    assert_eq!(ages(&pr, &Timestamp::new(90_000 + 1_000, 0)), "Created 1d1h, updated 1d43m20s ago");
    assert_eq!(ages(&pr, &Timestamp::new(2_000, 0)), "Created 16m40s, updated 0s ago");
}

#[test]
fn flags_in_words() {
    let pr = listed("https://x/1", "repo", 42, "Fix it", "Assignee");
    assert_eq!(flag_words(&pr, &PrState::default(), "NEW", "UPDATED", "COMMENTS"), "NEW COMMENTS");
    assert_eq!(flag_words(&pr, &opened(1_999, 3, ""), "NEW", "UPDATED", "COMMENTS"), "UPDATED ");
    assert_eq!(
        flag_words(&pr, &opened(1_999, 0, ""), "NEW", "UPDATED", "COMMENTS"),
        "UPDATED COMMENTS"
    );
    assert_eq!(flag_words(&pr, &opened(2_000, 3, ""), "NEW", "UPDATED", "COMMENTS"), "");
    assert_eq!(flag_words(&pr, &PrState::default(), "n", "u", "c"), "n c");
}

#[test]
fn the_note_stands_in_brackets() {
    assert_eq!(note_line(&opened(1, 1, "Approved"), "Approved"), "[Approved]");
    assert_eq!(note_line(&opened(1, 1, "Approved"), "<painted>"), "[<painted>]");
    assert_eq!(note_line(&opened(1, 1, ""), "ignored"), "");
}

#[test]
fn the_single_view_has_ten_lines() {
    colored::control::set_override(true);
    let prs = vec![
        listed("https://x/0", "other", 7, "Other", "Mentions"),
        listed("https://x/1", "repo", 42, "Fix it", "Assignee"),
    ];
    let mut state = UserState::default();
    add_note(&mut state, "https://x/1", "Approved");
    let now = Timestamp::new(2_000 + 3_600, 0);
    let lines = print_show_pull_request("https://x/1", &prs, &state, &now);
    let expected = vec![
        "octo/repo".bright_red().to_string(),
        "(#42) Fix it".cyan().to_string(),
        String::new(),
        format!("{} {}", "NEW".green(), "COMMENTS".bright_yellow()),
        "octo (Assignee)".yellow().to_string(),
        "Created 1h16m, updated 1h ago".yellow().to_string(),
        "3 comment(s)".yellow().to_string(),
        format!("[{}]", "Approved".yellow()),
        String::new(),
        "The body.\nSecond line.".to_string(),
    ];
    assert_eq!(lines, expected);
    assert_eq!(lines[0], "\u{1b}[91mocto/repo\u{1b}[0m");
    assert_eq!(lines[1], "\u{1b}[36m(#42) Fix it\u{1b}[0m");
    assert_eq!(lines[3], "\u{1b}[32mNEW\u{1b}[0m \u{1b}[93mCOMMENTS\u{1b}[0m");
    assert_eq!(lines[4], "\u{1b}[33mocto (Assignee)\u{1b}[0m");
    assert_eq!(lines[5], "\u{1b}[33mCreated 1h16m, updated 1h ago\u{1b}[0m");
    assert_eq!(lines[6], "\u{1b}[33m3 comment(s)\u{1b}[0m");
    assert_eq!(lines[7], "[\u{1b}[33mApproved\u{1b}[0m]");
}

#[test]
fn the_single_view_of_an_updated_pull_request_says_so_in_bright_white() {
    colored::control::set_override(true);
    let prs = vec![listed("https://x/1", "repo", 42, "Fix it", "Assignee")];
    let mut state = UserState::default();
    assert!(state.mark_opened(&prs[0]));
    let mut later = prs.clone();
    later[0].updated_at = Timestamp::new(2_001, 0);
    let lines = print_show_pull_request("https://x/1", &later, &state, &Timestamp::new(2_010, 0));
    assert_eq!(lines[3], "\u{1b}[97mUPDATED\u{1b}[0m ");
    assert_eq!(lines[7], "");
}

#[test]
fn the_single_view_without_colours() {
    colored::control::set_override(false);
    let prs = vec![listed("https://x/1", "repo", 42, "Fix it", "Assignee")];
    let mut state = UserState::default();
    assert!(state.mark_opened(&prs[0]));
    let mut updated = prs.clone();
    updated[0].updated_at = Timestamp::new(2_001, 0);
    let lines = print_show_pull_request("https://x/1", &updated, &state, &Timestamp::new(2_010, 0));
    assert_eq!(
        lines,
        vec![
            "octo/repo",
            "(#42) Fix it",
            "",
            "UPDATED ",
            "octo (Assignee)",
            "Created 16m50s, updated 9s ago",
            "3 comment(s)",
            "",
            "",
            "The body.\nSecond line.",
        ]
    );
}

#[test]
fn the_single_view_of_an_unknown_url_is_empty() {
    let prs = vec![listed("https://x/1", "repo", 42, "Fix it", "Assignee")];
    let lines = print_show_pull_request("https://x/9", &prs, &UserState::default(), &Timestamp::new(0, 0));
    assert!(lines.is_empty());
}

#[test]
fn the_header_tells_the_age_of_the_snapshot() {
    let now = Timestamp::new(10_000, 0);
    assert_eq!(header(Some(Timestamp::new(9_990, 0)), &now, "regular"), "X synced 10s ago | regular");
    assert_eq!(header(Some(Timestamp::new(9_000, 0)), &now, "mute-top"), "X synced 16m ago | mute-top");
    assert_eq!(header(Some(Timestamp::new(0, 0)), &now, "regular"), "X synced 2h ago | regular");
    assert_eq!(header(None, &now, "hide-mute"), "X not synced | hide-mute");
}
