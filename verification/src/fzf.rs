//! What the picker shows: which pull requests, in which order, and the line
//! that stands for each.

use vstd::prelude::*;
use vstd::string::StringExecFns;
use vstd::utf8::encode_utf8;
use crate::config::{Config, Query};
use crate::paint;
use crate::paint::{
    is_painted, BRIGHT_BLACK, BRIGHT_RED, BRIGHT_WHITE, BRIGHT_YELLOW, CYAN, GREEN, YELLOW,
};
use crate::display::{display_sorted, sort_for_display};
use crate::gh::{find_by_url, first_with_url, url_occurs, PullRequest, Timestamp};
use crate::storage::{
    default_mode, get_pr_state_flags, has_new_comments, is_new, is_updated, lemma_flag_bits,
    state_of, PrState, PrStateView, UserState, HAS_NEW_COMMENTS, IS_NEW, IS_UPDATED,
};
use crate::text::{
    decimal, padded, push_decimal, push_padded, push_signed_decimal, signed_decimal,
};
use crate::util::{cycle, cycle_spec, is_first_occurrence, lemma_cycle_at, views};

verus! {

/// Shows every pull request in its place.
pub const VIEW_MODE_REGULAR: &'static str = "regular";

/// Shows the muted pull requests behind the others.
pub const VIEW_MODE_MUTE_TOP: &'static str = "mute-top";

/// Leaves the muted pull requests out.
pub const VIEW_MODE_HIDE_MUTE: &'static str = "hide-mute";

/// The view modes, in the order in which they follow one another.
pub open spec fn view_modes() -> Seq<Seq<char>> {
    seq![VIEW_MODE_REGULAR@, VIEW_MODE_MUTE_TOP@, VIEW_MODE_HIDE_MUTE@]
}

/// The three view modes are three different texts.
pub proof fn lemma_view_modes_differ()
    ensures
        VIEW_MODE_REGULAR@ != VIEW_MODE_MUTE_TOP@,
        VIEW_MODE_REGULAR@ != VIEW_MODE_HIDE_MUTE@,
        VIEW_MODE_MUTE_TOP@ != VIEW_MODE_HIDE_MUTE@,
{
    reveal_strlit("regular");
    reveal_strlit("mute-top");
    reveal_strlit("hide-mute");
    assert(VIEW_MODE_REGULAR@.len() == 7);
    assert(VIEW_MODE_MUTE_TOP@.len() == 8);
    assert(VIEW_MODE_HIDE_MUTE@.len() == 9);
}

/// The view mode that follows `mode`; the first one where `mode` is none of
/// the three.
pub fn cycle_view_mode(mode: &str) -> (next: String)
    ensures
        next@ == cycle_spec(mode@, view_modes()),
{
    let mut modes: Vec<String> = Vec::new();
    modes.push(VIEW_MODE_REGULAR.to_owned());
    modes.push(VIEW_MODE_MUTE_TOP.to_owned());
    modes.push(VIEW_MODE_HIDE_MUTE.to_owned());
    assert(views(modes@) =~= view_modes());
    cycle(mode, modes.as_slice())
}

/// Each view mode is followed by the next and the last by the first, so
/// that three steps from a view mode lead back to it; from any other text
/// one step leads to the first view mode.
pub proof fn lemma_view_mode_cycle(mode: Seq<char>)
    ensures
        cycle_spec(VIEW_MODE_REGULAR@, view_modes()) == VIEW_MODE_MUTE_TOP@,
        cycle_spec(VIEW_MODE_MUTE_TOP@, view_modes()) == VIEW_MODE_HIDE_MUTE@,
        cycle_spec(VIEW_MODE_HIDE_MUTE@, view_modes()) == VIEW_MODE_REGULAR@,
        view_modes().contains(mode) ==> cycle_spec(
            cycle_spec(cycle_spec(mode, view_modes()), view_modes()),
            view_modes(),
        ) == mode,
        !view_modes().contains(mode) ==> cycle_spec(mode, view_modes()) == VIEW_MODE_REGULAR@,
{
    lemma_view_modes_differ();
    let modes = view_modes();
    assert(is_first_occurrence(modes, VIEW_MODE_REGULAR@, 0));
    assert(is_first_occurrence(modes, VIEW_MODE_MUTE_TOP@, 1));
    assert(is_first_occurrence(modes, VIEW_MODE_HIDE_MUTE@, 2));
    lemma_cycle_at(VIEW_MODE_REGULAR@, modes, 0);
    lemma_cycle_at(VIEW_MODE_MUTE_TOP@, modes, 1);
    lemma_cycle_at(VIEW_MODE_HIDE_MUTE@, modes, 2);
    if modes.contains(mode) {
        let i = choose|i: int| 0 <= i < modes.len() && modes[i] == mode;
        assert(i == 0 || i == 1 || i == 2);
    }
}

/// The default view mode is the first of the view modes, and three steps
/// from it lead back to it by way of the two others.
pub proof fn lemma_default_view_mode_cycle()
    ensures
        default_mode() == view_modes()[0],
        ({
            let first = cycle_spec(default_mode(), view_modes());
            let second = cycle_spec(first, view_modes());
            &&& cycle_spec(second, view_modes()) == default_mode()
            &&& first != default_mode()
            &&& second != default_mode()
            &&& first != second
        }),
{
    lemma_view_modes_differ();
    lemma_view_mode_cycle(default_mode());
}

/// Whether `pr` is muted: as the user has said where anything is remembered
/// for its url, and as its search says otherwise.
pub open spec fn muted(per_url: Map<Seq<char>, PrStateView>, pr: PullRequest) -> bool {
    if per_url.contains_key(pr.url@) {
        per_url[pr.url@].is_mute
    } else {
        pr.meta.default_mute
    }
}

/// Whether `pr` is muted.
pub fn is_mute(user_state: &UserState, pr: &PullRequest) -> (mute: bool)
    ensures
        mute == muted(user_state.per_url@, *pr),
{
    match user_state.per_url.get(pr.url.as_str()) {
        Some(state) => state.is_mute,
        None => pr.meta.default_mute,
    }
}

/// The condition of being muted, or of not being muted, under `per_url`.
pub open spec fn mute_is(per_url: Map<Seq<char>, PrStateView>, wanted: bool) -> spec_fn(
    PullRequest,
) -> bool {
    |pr: PullRequest| muted(per_url, pr) == wanted
}

/// `prs` as the view mode `mode` shows them: with the muted ones moved
/// behind the others, or left out, or, under any other mode, all in their
/// place.
pub open spec fn arranged(
    prs: Seq<PullRequest>,
    per_url: Map<Seq<char>, PrStateView>,
    mode: Seq<char>,
) -> Seq<PullRequest> {
    if mode == VIEW_MODE_MUTE_TOP@ {
        prs.filter(mute_is(per_url, false)) + prs.filter(mute_is(per_url, true))
    } else if mode == VIEW_MODE_HIDE_MUTE@ {
        prs.filter(mute_is(per_url, false))
    } else {
        prs
    }
}

/// The pull requests of `prs` that are muted, where `wanted` holds, or not
/// muted, where it does not, in their order.
pub fn select_by_mute(prs: &Vec<PullRequest>, user_state: &UserState, wanted: bool) -> (out: Vec<
    PullRequest,
>)
    ensures
        out@ == prs@.filter(mute_is(user_state.per_url@, wanted)),
{
    let ghost keep = mute_is(user_state.per_url@, wanted);
    let mut out: Vec<PullRequest> = Vec::new();
    let n = prs.len();
    let mut i: usize = 0;
    proof {
        reveal(Seq::filter);
        assert(prs@.take(0) =~= Seq::<PullRequest>::empty());
    }
    while i < n
        invariant
            i <= n,
            n == prs@.len(),
            keep == mute_is(user_state.per_url@, wanted),
            out@ == prs@.take(i as int).filter(keep),
        decreases n - i,
    {
        proof {
            reveal(Seq::filter);
            assert(prs@.take(i + 1).drop_last() =~= prs@.take(i as int));
            assert(prs@.take(i + 1).last() == prs@[i as int]);
        }
        if is_mute(user_state, &prs[i]) == wanted {
            out.push(prs[i].clone());
        }
        i += 1;
    }
    assert(prs@.take(n as int) =~= prs@);
    out
}

/// `prs` as the user's view mode shows them.
pub fn arrange_by_view_mode(prs: &Vec<PullRequest>, user_state: &UserState) -> (out: Vec<
    PullRequest,
>)
    ensures
        out@ == arranged(prs@, user_state.per_url@, user_state.settings.view_mode@),
{
    let mute_top = String::from_str(VIEW_MODE_MUTE_TOP);
    let hide_mute = String::from_str(VIEW_MODE_HIDE_MUTE);
    if user_state.settings.view_mode == mute_top {
        let mut out = select_by_mute(prs, user_state, false);
        let mut behind = select_by_mute(prs, user_state, true);
        out.append(&mut behind);
        out
    } else if user_state.settings.view_mode == hide_mute {
        select_by_mute(prs, user_state, false)
    } else {
        prs.clone()
    }
}

/// The pull requests that the picker shows, in the order in which it shows
/// them: `prs` in display order, then arranged by the user's view mode.
pub fn pull_requests_for_display(
    prs: &Vec<PullRequest>,
    user_state: &UserState,
    config: &Config,
) -> (out: Vec<PullRequest>)
    ensures
        out@ == arranged(
            display_sorted(views(config.display_order@), prs@),
            user_state.per_url@,
            user_state.settings.view_mode@,
        ),
{
    let sorted = sort_for_display(prs, &config.display_order);
    arrange_by_view_mode(&sorted, user_state)
}

/// `left` and `right` in one text of at most `width` characters.
///
/// Where both fit they are put side by side. Where they do not, and there
/// is room beside `right`, `left` is cut to that room, its last character
/// there an ellipsis, and `right` is dropped. Where there is no room
/// beside `right`, the text is `right` if it fills the width exactly and
/// empty otherwise.
pub open spec fn capped(width: nat, left: Seq<char>, right: Seq<char>) -> Seq<char> {
    if left.len() + right.len() <= width {
        left + right
    } else if width > right.len() {
        left.take(width - right.len() - 1).push('\u{2026}')
    } else if width == right.len() {
        right
    } else {
        Seq::empty()
    }
}

/// Puts `left` and `right` into one text of at most `width` characters.
pub fn join_strings_cap_width(width: usize, left: &str, right: &str) -> (joined: String)
    ensures
        joined@ == capped(width as nat, left@, right@),
        joined@.len() <= width,
{
    let left_len = left.unicode_len();
    let right_len = right.unicode_len();
    if right_len <= width && left_len <= width - right_len {
        let mut joined = left.to_owned();
        joined.append(right);
        return joined;
    }
    if width > right_len {
        let room = width - right_len;
        let mut joined = left.substring_char(0, room - 1).to_owned();
        proof {
            reveal_strlit("\u{2026}");
        }
        joined.append("\u{2026}");
        assert(joined@ =~= left@.take(room - 1).push('\u{2026}'));
        joined
    } else if width == right_len {
        right.to_owned()
    } else {
        String::new()
    }
}

/// A length of time in whole seconds, to be written in days, hours,
/// minutes and seconds.
#[derive(Debug, Clone, Copy, PartialEq, Eq, Structural)]
pub struct PrettyDuration {
    pub seconds: i64,
}

/// `n` in decimal followed by `unit` where `show` holds, and nothing
/// otherwise.
pub open spec fn unit_part(show: bool, n: nat, unit: char) -> Seq<char> {
    if show {
        decimal(n).push(unit)
    } else {
        Seq::empty()
    }
}

/// `seconds` written in days, hours, minutes and seconds.
///
/// The largest unit that is not zero comes first, and the smaller ones
/// follow where they are not zero; beside hours and minutes the seconds
/// are left out. Less than a minute is written in seconds, and so is a
/// negative length, of which only the seconds beyond whole minutes are
/// written.
pub open spec fn pretty(seconds: int) -> Seq<char> {
    if seconds < 0 {
        signed_decimal(-((-seconds) % 60)).push('s')
    } else {
        let days = (seconds / 86400) as nat;
        let hours = ((seconds % 86400) / 3600) as nat;
        let minutes = ((seconds % 3600) / 60) as nat;
        let secs = (seconds % 60) as nat;
        if days > 0 {
            decimal(days).push('d') + unit_part(hours > 0, hours, 'h') + unit_part(
                minutes > 0,
                minutes,
                'm',
            ) + unit_part(secs > 0, secs, 's')
        } else if hours > 0 {
            decimal(hours).push('h') + unit_part(minutes > 0, minutes, 'm') + unit_part(
                secs > 0 && minutes == 0,
                secs,
                's',
            )
        } else if minutes > 0 {
            decimal(minutes).push('m') + unit_part(secs > 0, secs, 's')
        } else {
            decimal(secs).push('s')
        }
    }
}

/// Appends `n` and `unit` to `out` where `show` holds.
fn push_unit(out: &mut String, show: bool, n: u64, unit: &str)
    requires
        unit@.len() == 1,
    ensures
        final(out)@ == old(out)@ + unit_part(show, n as nat, unit@[0]),
{
    if show {
        push_decimal(out, n);
        out.append(unit);
        assert(out@ =~= old(out)@ + unit_part(show, n as nat, unit@[0]));
    } else {
        assert(out@ =~= old(out)@ + unit_part(show, n as nat, unit@[0]));
    }
}

impl PrettyDuration {
    /// The length of time of `seconds` seconds.
    pub fn from_duration(seconds: i64) -> (duration: Self)
        ensures
            duration.seconds == seconds,
    {
        PrettyDuration { seconds }
    }

    /// The length of time in words.
    pub fn to_string(&self) -> (text: String)
        ensures
            text@ == pretty(self.seconds as int),
    {
        proof {
            reveal_strlit("d");
            reveal_strlit("h");
            reveal_strlit("m");
            reveal_strlit("s");
        }
        let mut text = String::new();
        if self.seconds < 0 {
            let magnitude: u64 = if self.seconds == i64::MIN {
                9223372036854775808u64
            } else {
                (-self.seconds) as u64
            };
            let beyond = (magnitude % 60) as i64;
            push_signed_decimal(&mut text, -beyond);
            text.append("s");
            assert(text@ =~= pretty(self.seconds as int));
            return text;
        }
        let total = self.seconds as u64;
        let days = total / 86400;
        let hours = (total % 86400) / 3600;
        let minutes = (total % 3600) / 60;
        let secs = total % 60;
        if days > 0 {
            push_unit(&mut text, true, days, "d");
            push_unit(&mut text, hours > 0, hours, "h");
            push_unit(&mut text, minutes > 0, minutes, "m");
            push_unit(&mut text, secs > 0, secs, "s");
        } else if hours > 0 {
            push_unit(&mut text, true, hours, "h");
            push_unit(&mut text, minutes > 0, minutes, "m");
            push_unit(&mut text, secs > 0 && minutes == 0, secs, "s");
        } else if minutes > 0 {
            push_unit(&mut text, true, minutes, "m");
            push_unit(&mut text, secs > 0, secs, "s");
        } else {
            push_unit(&mut text, true, secs, "s");
        }
        assert(text@ =~= pretty(self.seconds as int));
        text
    }
}

/// `seconds` in the largest unit that it fills, rounded down: seconds up to
/// a minute, minutes up to an hour, hours up to a day, and days beyond.
/// A negative length is written in seconds.
pub open spec fn rough(seconds: int) -> Seq<char> {
    if seconds < 60 {
        signed_decimal(seconds).push('s')
    } else if seconds < 3600 {
        decimal((seconds / 60) as nat).push('m')
    } else if seconds < 86400 {
        decimal((seconds / 3600) as nat).push('h')
    } else {
        decimal((seconds / 86400) as nat).push('d')
    }
}

/// A length of time in its largest unit.
pub fn format_duration(seconds: i64) -> (text: String)
    ensures
        text@ == rough(seconds as int),
{
    proof {
        reveal_strlit("d");
        reveal_strlit("h");
        reveal_strlit("m");
        reveal_strlit("s");
    }
    let mut text = String::new();
    if seconds < 60 {
        push_signed_decimal(&mut text, seconds);
        text.append("s");
    } else if seconds < 3600 {
        push_decimal(&mut text, (seconds / 60) as u64);
        text.append("m");
    } else if seconds < 86400 {
        push_decimal(&mut text, (seconds / 3600) as u64);
        text.append("h");
    } else {
        push_decimal(&mut text, (seconds / 86400) as u64);
        text.append("d");
    }
    assert(text@ =~= rough(seconds as int));
    text
}

/// Whether `i` is the position of the first search named `label`.
pub open spec fn is_first_named(queries: Seq<Query>, label: Seq<char>, i: int) -> bool {
    &&& 0 <= i < queries.len()
    &&& queries[i].query_name@ == label
    &&& forall|j: int| 0 <= j < i ==> (#[trigger] queries[j]).query_name@ != label
}

/// The short code of the first search named `label`, and a space where no
/// search has that name.
pub open spec fn short_label_of(queries: Seq<Query>, label: Seq<char>) -> Seq<char> {
    if exists|i: int| is_first_named(queries, label, i) {
        queries[choose|i: int| is_first_named(queries, label, i)].short_name@
    } else {
        " "@
    }
}

/// The short code that stands for the search named `label`.
pub fn short_label(queries: &Vec<Query>, label: &String) -> (short: String)
    ensures
        short@ == short_label_of(queries@, label@),
{
    let n = queries.len();
    let mut i: usize = 0;
    while i < n
        invariant
            i <= n,
            n == queries@.len(),
            forall|j: int| 0 <= j < i ==> (#[trigger] queries@[j]).query_name@ != label@,
        decreases n - i,
    {
        if queries[i].query_name == *label {
            proof {
                assert(is_first_named(queries@, label@, i as int));
                let c = choose|c: int| is_first_named(queries@, label@, c);
                if c < i {
                    assert(queries@[c].query_name@ != label@);
                }
                if i < c {
                    assert(queries@[i as int].query_name@ != label@);
                }
            }
            return queries[i].short_name.clone();
        }
        i += 1;
    }
    String::from_str(" ")
}

/// The longest repository name of `prs`, in bytes of its encoding.
pub open spec fn widest_name(prs: Seq<PullRequest>) -> nat
    decreases prs.len(),
{
    if prs.len() == 0 {
        0
    } else {
        let before = widest_name(prs.drop_last());
        let last = encode_utf8(prs.last().repository.name@).len();
        if last > before {
            last
        } else {
            before
        }
    }
}

/// The width to which repository names are filled up: the length of the
/// longest one in bytes.
pub fn name_column_width(prs: &Vec<PullRequest>) -> (width: usize)
    ensures
        width == widest_name(prs@),
{
    let n = prs.len();
    let mut width: usize = 0;
    let mut i: usize = 0;
    assert(prs@.take(0) =~= Seq::<PullRequest>::empty());
    while i < n
        invariant
            i <= n,
            n == prs@.len(),
            width == widest_name(prs@.take(i as int)),
        decreases n - i,
    {
        proof {
            assert(prs@.take(i + 1).drop_last() =~= prs@.take(i as int));
            assert(prs@.take(i + 1).last() == prs@[i as int]);
        }
        let len = prs[i].repository.name.as_str().as_bytes().len();
        if len > width {
            width = len;
        }
        i += 1;
    }
    assert(prs@.take(n as int) =~= prs@);
    width
}

/// The texts that stand in a row for what may be coloured: the three flag
/// letters and the note.
pub struct RowPaints {
    pub new: String,
    pub updated: String,
    pub commented: String,
    pub note: String,
}

/// The texts of a `RowPaints`.
pub ghost struct RowPaintsView {
    pub new: Seq<char>,
    pub updated: Seq<char>,
    pub commented: Seq<char>,
    pub note: Seq<char>,
}

impl View for RowPaints {
    type V = RowPaintsView;

    open spec fn view(&self) -> RowPaintsView {
        RowPaintsView {
            new: self.new@,
            updated: self.updated@,
            commented: self.commented@,
            note: self.note@,
        }
    }
}

/// The place of a flag in a row: `shown` where the flag is set, and a
/// no-break space where it is not.
pub open spec fn flag_cell(set: bool, shown: Seq<char>) -> Seq<char> {
    if set {
        shown
    } else {
        "\u{00A0}"@
    }
}

/// The left part of the row of `pr`: the flags for new, updated and
/// commented, the repository name filled up to `name_width`, the short
/// code of the search, the number behind `#` filled up to five
/// characters, and the title, with a space between each two.
pub open spec fn row_left(
    pr: PullRequest,
    state: PrStateView,
    short: Seq<char>,
    name_width: nat,
    paints: RowPaintsView,
) -> Seq<char> {
    flag_cell(is_new(state), paints.new) + flag_cell(is_updated(pr, state), paints.updated)
        + flag_cell(has_new_comments(pr, state), paints.commented) + " "@ + padded(
        pr.repository.name@,
        name_width,
    ) + " "@ + short + " "@ + "#"@ + padded(signed_decimal(pr.number as int), 5) + " "@
        + pr.title@
}

/// The right part of a row: the note in square brackets behind a space,
/// and nothing where there is no note.
pub open spec fn row_right(state: PrStateView, paints: RowPaintsView) -> Seq<char> {
    if state.note.len() > 0 {
        " ["@ + paints.note + "]"@
    } else {
        Seq::empty()
    }
}

/// The row of `pr`: its url, a tab, and the left and right part in at most
/// `terminal_width` characters.
pub open spec fn row_of(
    pr: PullRequest,
    state: PrStateView,
    short: Seq<char>,
    name_width: nat,
    terminal_width: nat,
    paints: RowPaintsView,
) -> Seq<char> {
    pr.url@ + "\t"@ + capped(
        terminal_width,
        row_left(pr, state, short, name_width, paints),
        row_right(state, paints),
    )
}

/// Appends to `out` the place of a flag.
fn push_flag_cell(out: &mut String, set: bool, shown: &str)
    ensures
        final(out)@ == old(out)@ + flag_cell(set, shown@),
{
    if set {
        out.append(shown);
    } else {
        out.append("\u{00A0}");
    }
}

/// Writes the row of `pr` from its parts.
pub fn compose_row(
    pr: &PullRequest,
    pr_state: &PrState,
    short: &str,
    name_width: usize,
    terminal_width: usize,
    paints: &RowPaints,
) -> (row: String)
    ensures
        row@ == row_of(
            *pr,
            pr_state@,
            short@,
            name_width as nat,
            terminal_width as nat,
            paints@,
        ),
{
    let flags = get_pr_state_flags(pr, pr_state);
    proof {
        lemma_flag_bits(*pr, pr_state@);
    }
    let mut left = String::new();
    push_flag_cell(&mut left, flags & IS_NEW != 0, paints.new.as_str());
    push_flag_cell(&mut left, flags & IS_UPDATED != 0, paints.updated.as_str());
    push_flag_cell(&mut left, flags & HAS_NEW_COMMENTS != 0, paints.commented.as_str());
    left.append(" ");
    push_padded(&mut left, pr.repository.name.as_str(), name_width);
    left.append(" ");
    left.append(short);
    left.append(" ");
    left.append("#");
    let mut number = String::new();
    push_signed_decimal(&mut number, pr.number as i64);
    assert(number@ =~= signed_decimal(pr.number as int));
    push_padded(&mut left, number.as_str(), 5);
    left.append(" ");
    left.append(pr.title.as_str());
    assert(left@ =~= row_left(*pr, pr_state@, short@, name_width as nat, paints@));
    let mut right = String::new();
    if !pr_state.note.as_str().is_empty() {
        right.append(" [");
        right.append(paints.note.as_str());
        right.append("]");
    }
    assert(right@ =~= row_right(pr_state@, paints@));
    let mut row = pr.url.clone();
    row.append("\t");
    let joined = join_strings_cap_width(terminal_width, left.as_str(), right.as_str());
    row.append(joined.as_str());
    row
}

/// Whether `paints` are the flag letters and the note `note` as the
/// terminal colours may make them: `N` in green, `U` in bright white, `C`
/// in bright yellow and the note in cyan.
pub open spec fn are_row_paints(paints: RowPaintsView, note: Seq<char>) -> bool {
    &&& is_painted(paints.new, "N"@, GREEN@)
    &&& is_painted(paints.updated, "U"@, BRIGHT_WHITE@)
    &&& is_painted(paints.commented, "C"@, BRIGHT_YELLOW@)
    &&& is_painted(paints.note, note, CYAN@)
}

/// The flag letters and the note `note` without colours.
pub open spec fn plain_paints(note: Seq<char>) -> RowPaintsView {
    RowPaintsView { new: "N"@, updated: "U"@, commented: "C"@, note }
}

/// Whether `line` is the line of `pr` in the picker.
///
/// For a pull request that is not muted it is the row with its flags and
/// its note in their colours. For a muted one it is the row without
/// colours, painted bright black as a whole.
pub open spec fn is_picker_line(
    line: Seq<char>,
    pr: PullRequest,
    state: PrStateView,
    mute: bool,
    short: Seq<char>,
    name_width: nat,
    terminal_width: nat,
) -> bool {
    if mute {
        is_painted(
            line,
            row_of(pr, state, short, name_width, terminal_width, plain_paints(state.note)),
            BRIGHT_BLACK@,
        )
    } else {
        exists|paints: RowPaintsView|
            are_row_paints(paints, state.note) && line == #[trigger] row_of(
                pr,
                state,
                short,
                name_width,
                terminal_width,
                paints,
            )
    }
}

/// The lines of the picker, one for each pull request that is shown, in
/// the order in which they are shown: `prs` in display order, arranged by
/// the user's view mode. Each line is what `is_picker_line` describes,
/// with the short code of the pull request's search and the repository
/// names filled up to the widest of those shown.
pub fn print_pull_requests(
    terminal_width: usize,
    prs: &Vec<PullRequest>,
    user_state: &UserState,
    config: &Config,
) -> (lines: Vec<String>)
    ensures
        lines@.len() == arranged(
            display_sorted(views(config.display_order@), prs@),
            user_state.per_url@,
            user_state.settings.view_mode@,
        ).len(),
        forall|i: int|
            #![trigger lines@[i]]
            0 <= i < lines@.len() ==> {
                let shown = arranged(
                    display_sorted(views(config.display_order@), prs@),
                    user_state.per_url@,
                    user_state.settings.view_mode@,
                );
                is_picker_line(
                    lines@[i]@,
                    shown[i],
                    state_of(user_state.per_url@, shown[i].url@),
                    muted(user_state.per_url@, shown[i]),
                    short_label_of(config.queries@, shown[i].meta.label@),
                    widest_name(shown),
                    terminal_width as nat,
                )
            },
{
    let shown = pull_requests_for_display(prs, user_state, config);
    let name_width = name_column_width(&shown);
    let mut lines: Vec<String> = Vec::new();
    let n = shown.len();
    let mut i: usize = 0;
    while i < n
        invariant
            i <= n,
            n == shown@.len(),
            name_width == widest_name(shown@),
            lines@.len() == i,
            forall|j: int|
                #![trigger lines@[j]]
                0 <= j < i ==> is_picker_line(
                    lines@[j]@,
                    shown@[j],
                    state_of(user_state.per_url@, shown@[j].url@),
                    muted(user_state.per_url@, shown@[j]),
                    short_label_of(config.queries@, shown@[j].meta.label@),
                    name_width as nat,
                    terminal_width as nat,
                ),
        decreases n - i,
    {
        let pr = &shown[i];
        let pr_state = user_state.state_for(pr.url.as_str());
        let mute = is_mute(user_state, pr);
        let short = short_label(&config.queries, &pr.meta.label);
        let line = if mute {
            let paints = RowPaints {
                new: String::from_str("N"),
                updated: String::from_str("U"),
                commented: String::from_str("C"),
                note: pr_state.note.clone(),
            };
            assert(paints@ == plain_paints(pr_state@.note));
            let row = compose_row(
                pr,
                &pr_state,
                short.as_str(),
                name_width,
                terminal_width,
                &paints,
            );
            paint::bright_black(row.as_str())
        } else {
            let paints = RowPaints {
                new: paint::green("N"),
                updated: paint::bright_white("U"),
                commented: paint::bright_yellow("C"),
                note: paint::cyan(pr_state.note.as_str()),
            };
            assert(are_row_paints(paints@, pr_state@.note));
            compose_row(pr, &pr_state, short.as_str(), name_width, terminal_width, &paints)
        };
        assert(is_picker_line(
            line@,
            *pr,
            pr_state@,
            mute,
            short@,
            name_width as nat,
            terminal_width as nat,
        ));
        lines.push(line);
        i += 1;
    }
    lines
}

/// The headline of `pr`: its number behind `#` in brackets, and its title.
pub open spec fn headline_of(pr: PullRequest) -> Seq<char> {
    "(#"@ + signed_decimal(pr.number as int) + ") "@ + pr.title@
}

/// The headline of `pr`.
pub fn headline(pr: &PullRequest) -> (text: String)
    ensures
        text@ == headline_of(*pr),
{
    let mut text = String::from_str("(#");
    push_signed_decimal(&mut text, pr.number as i64);
    text.append(") ");
    text.append(pr.title.as_str());
    assert(text@ =~= headline_of(*pr));
    text
}

/// Who opened `pr`, and in brackets the search it is attributed to.
pub open spec fn byline_of(pr: PullRequest) -> Seq<char> {
    pr.author.login@ + " ("@ + pr.meta.label@ + ")"@
}

/// Who opened `pr`, and the search it is attributed to.
pub fn byline(pr: &PullRequest) -> (text: String)
    ensures
        text@ == byline_of(*pr),
{
    let mut text = pr.author.login.clone();
    text.append(" (");
    text.append(pr.meta.label.as_str());
    text.append(")");
    assert(text@ =~= byline_of(*pr));
    text
}

/// How long ago something was created and updated, the two lengths of
/// time given in seconds.
pub open spec fn ages_of(created: int, updated: int) -> Seq<char> {
    "Created "@ + pretty(created) + ", updated "@ + pretty(updated) + " ago"@
}

/// How long before `now` the pull request `pr` was created and updated.
pub fn ages(pr: &PullRequest, now: &Timestamp) -> (text: String)
    ensures
        text@ == ages_of(
            now.seconds_since_spec(pr.created_at),
            now.seconds_since_spec(pr.updated_at),
        ),
{
    let created = PrettyDuration::from_duration(now.seconds_since(&pr.created_at)).to_string();
    let updated = PrettyDuration::from_duration(now.seconds_since(&pr.updated_at)).to_string();
    let mut text = String::from_str("Created ");
    text.append(created.as_str());
    text.append(", updated ");
    text.append(updated.as_str());
    text.append(" ago");
    assert(text@ =~= ages_of(
        now.seconds_since_spec(pr.created_at),
        now.seconds_since_spec(pr.updated_at),
    ));
    text
}

/// The number of comments of `pr`, in words.
pub open spec fn comments_of(pr: PullRequest) -> Seq<char> {
    signed_decimal(pr.comments_count as int) + " comment(s)"@
}

/// The number of comments of `pr`, in words.
pub fn comments(pr: &PullRequest) -> (text: String)
    ensures
        text@ == comments_of(*pr),
{
    let mut text = String::new();
    push_signed_decimal(&mut text, pr.comments_count as i64);
    text.append(" comment(s)");
    assert(text@ =~= comments_of(*pr));
    text
}

/// The flags of a pull request in words, each as `shown` gives it: `new`
/// and `updated` with a space behind them, then `commented`.
pub open spec fn flag_words_of(
    pr: PullRequest,
    state: PrStateView,
    new: Seq<char>,
    updated: Seq<char>,
    commented: Seq<char>,
) -> Seq<char> {
    (if is_new(state) {
        new + " "@
    } else {
        Seq::empty()
    }) + (if is_updated(pr, state) {
        updated + " "@
    } else {
        Seq::empty()
    }) + (if has_new_comments(pr, state) {
        commented
    } else {
        Seq::empty()
    })
}

/// Writes the flags of `pr` in words.
pub fn flag_words(
    pr: &PullRequest,
    pr_state: &PrState,
    new: &str,
    updated: &str,
    commented: &str,
) -> (text: String)
    ensures
        text@ == flag_words_of(*pr, pr_state@, new@, updated@, commented@),
{
    let flags = get_pr_state_flags(pr, pr_state);
    proof {
        lemma_flag_bits(*pr, pr_state@);
    }
    let mut text = String::new();
    if flags & IS_NEW != 0 {
        text.append(new);
        text.append(" ");
    }
    if flags & IS_UPDATED != 0 {
        text.append(updated);
        text.append(" ");
    }
    if flags & HAS_NEW_COMMENTS != 0 {
        text.append(commented);
    }
    assert(text@ =~= flag_words_of(*pr, pr_state@, new@, updated@, commented@));
    text
}

/// The note as it is shown with a pull request: `shown` in square
/// brackets, and nothing where there is no note.
pub open spec fn note_line_of(state: PrStateView, shown: Seq<char>) -> Seq<char> {
    if state.note.len() > 0 {
        "["@ + shown + "]"@
    } else {
        Seq::empty()
    }
}

/// Writes the note of a pull request as it is shown with it.
pub fn note_line(pr_state: &PrState, shown: &str) -> (text: String)
    ensures
        text@ == note_line_of(pr_state@, shown@),
{
    let mut text = String::new();
    if !pr_state.note.as_str().is_empty() {
        text.append("[");
        text.append(shown);
        text.append("]");
    }
    assert(text@ =~= note_line_of(pr_state@, shown@));
    text
}

/// Whether `lines` show `pr`, of which `state` is remembered, when the
/// two lengths of time since it was created and updated are `created`
/// and `updated` seconds.
///
/// There are ten lines: the repository with its owner in bright red; the
/// headline in cyan; an empty line; the flags in words, `NEW` in green,
/// `UPDATED` in bright white and `COMMENTS` in bright yellow; author and
/// search, the ages, and the comments, each in yellow; the note in yellow
/// within its brackets; an empty line; and the body.
pub open spec fn is_single_view(
    lines: Seq<Seq<char>>,
    pr: PullRequest,
    state: PrStateView,
    created: int,
    updated: int,
) -> bool {
    &&& lines.len() == 10
    &&& is_painted(lines[0], pr.repository.name_with_owner@, BRIGHT_RED@)
    &&& is_painted(lines[1], headline_of(pr), CYAN@)
    &&& lines[2].len() == 0
    &&& exists|new: Seq<char>, changed: Seq<char>, commented: Seq<char>|
        {
            &&& is_painted(new, "NEW"@, GREEN@)
            &&& is_painted(changed, "UPDATED"@, BRIGHT_WHITE@)
            &&& is_painted(commented, "COMMENTS"@, BRIGHT_YELLOW@)
            &&& lines[3] == #[trigger] flag_words_of(pr, state, new, changed, commented)
        }
    &&& is_painted(lines[4], byline_of(pr), YELLOW@)
    &&& is_painted(lines[5], ages_of(created, updated), YELLOW@)
    &&& is_painted(lines[6], comments_of(pr), YELLOW@)
    &&& exists|shown: Seq<char>|
        is_painted(shown, state.note, YELLOW@) && lines[7] == #[trigger] note_line_of(
            state,
            shown,
        )
    &&& lines[8].len() == 0
    &&& lines[9] == pr.body@
}

/// The lines that show the pull request with the url `pr_url`, as it
/// stands at `now`: what `is_single_view` describes for the first pull
/// request of `prs` with that url, and no line where there is none.
pub fn print_show_pull_request(
    pr_url: &str,
    prs: &Vec<PullRequest>,
    user_state: &UserState,
    now: &Timestamp,
) -> (lines: Vec<String>)
    ensures
        !url_occurs(prs@, pr_url@) ==> lines@.len() == 0,
        url_occurs(prs@, pr_url@) ==> {
            let pr = prs@[first_with_url(prs@, pr_url@)];
            is_single_view(
                views(lines@),
                pr,
                state_of(user_state.per_url@, pr.url@),
                now.seconds_since_spec(pr.created_at),
                now.seconds_since_spec(pr.updated_at),
            )
        },
{
    let mut lines: Vec<String> = Vec::new();
    match find_by_url(prs, pr_url) {
        None => lines,
        Some(i) => {
            let pr = &prs[i];
            let pr_state = user_state.state_for(pr.url.as_str());
            let new = paint::green("NEW");
            let updated = paint::bright_white("UPDATED");
            let commented = paint::bright_yellow("COMMENTS");
            let note = paint::yellow(pr_state.note.as_str());
            lines.push(paint::bright_red(pr.repository.name_with_owner.as_str()));
            lines.push(paint::cyan(headline(pr).as_str()));
            lines.push(String::new());
            lines.push(
                flag_words(pr, &pr_state, new.as_str(), updated.as_str(), commented.as_str()),
            );
            lines.push(paint::yellow(byline(pr).as_str()));
            lines.push(paint::yellow(ages(pr, now).as_str()));
            lines.push(paint::yellow(comments(pr).as_str()));
            lines.push(note_line(&pr_state, note.as_str()));
            lines.push(String::new());
            lines.push(pr.body.clone());
            proof {
                let shown = views(lines@);
                assert(shown[3] == flag_words_of(*pr, pr_state@, new@, updated@, commented@));
                assert(shown[7] == note_line_of(pr_state@, note@));
                assert(shown[0] == lines@[0]@ && shown[1] == lines@[1]@ && shown[2] == lines@[2]@);
                assert(shown[4] == lines@[4]@ && shown[5] == lines@[5]@ && shown[6] == lines@[6]@);
                assert(shown[8] == lines@[8]@ && shown[9] == lines@[9]@);
            }
            lines
        },
    }
}

/// The head line of the picker: how long ago the snapshot was written, or
/// that there is none, and the view mode.
pub open spec fn header_of(age: Option<int>, view_mode: Seq<char>) -> Seq<char> {
    (match age {
        Some(seconds) => "X synced "@ + rough(seconds) + " ago"@,
        None => "X not synced"@,
    }) + " | "@ + view_mode
}

/// The head line of the picker at `now`, for a snapshot written at
/// `sync_time`.
pub fn header(sync_time: Option<Timestamp>, now: &Timestamp, view_mode: &str) -> (text: String)
    ensures
        text@ == header_of(
            match sync_time {
                Some(written) => Some(now.seconds_since_spec(written)),
                None => None,
            },
            view_mode@,
        ),
{
    let mut text = String::new();
    match sync_time {
        Some(written) => {
            text.append("X synced ");
            text.append(format_duration(now.seconds_since(&written)).as_str());
            text.append(" ago");
        },
        None => {
            text.append("X not synced");
        },
    }
    text.append(" | ");
    text.append(view_mode);
    assert(text@ =~= header_of(
        match sync_time {
            Some(written) => Some(now.seconds_since_spec(written)),
            None => None,
        },
        view_mode@,
    ));
    text
}

} // verus!
