//! The compact summary: how many pull requests ask for attention, written
//! into a template.

use vstd::prelude::*;
use vstd::string::StringExecFns;
use crate::actions::{apply_actions, muted_by, muted_if};
use crate::config::Config;
use crate::fzf::{is_mute, muted};
use crate::gh::{PullRequest, Timestamp};
use crate::storage::{
    get_pr_state_flags, has_new_comments, is_new, is_updated, lemma_flag_bits, state_of,
    PrStateView, UserState, HAS_NEW_COMMENTS, IS_NEW, IS_UPDATED,
};
use crate::text::{decimal, push_decimal, replace_all, replaced};

verus! {

/// The template that is used where the configuration gives none.
pub const DEFAULT_FORMAT: &'static str = "t:TOT n:NEW u:UPD c:COM";

/// What is written in place of a summary when the snapshot is missing or
/// older than `OUT_OF_SYNC_SECONDS`.
pub const OUT_OF_SYNC_TEXT: &'static str = "GH err!";

/// The age, in seconds, beyond which a snapshot counts as out of date.
pub const OUT_OF_SYNC_SECONDS: i64 = 300;

/// The category under which a pull request is counted.
#[derive(Debug, Clone, Copy, PartialEq, Eq, Structural)]
pub enum Status {
    /// Never opened.
    New,
    /// Opened, and updated since.
    Updated,
    /// Opened, not updated since, but with more comments than then.
    Commented,
    /// Nothing to report.
    Quiet,
}

/// The category of `pr` against `state`: the first that applies of new,
/// updated and commented.
pub open spec fn status_of(pr: PullRequest, state: PrStateView) -> Status {
    if is_new(state) {
        Status::New
    } else if is_updated(pr, state) {
        Status::Updated
    } else if has_new_comments(pr, state) {
        Status::Commented
    } else {
        Status::Quiet
    }
}

/// The condition of not being muted and, where `status` is given, of
/// falling under it.
pub open spec fn counts_as(per_url: Map<Seq<char>, PrStateView>, status: Option<Status>) -> spec_fn(
    PullRequest,
) -> bool {
    |pr: PullRequest|
        !muted(per_url, pr) && match status {
            Some(wanted) => status_of(pr, state_of(per_url, pr.url@)) == wanted,
            None => true,
        }
}

/// How many pull requests fall under each category.
#[derive(Debug, Clone, Copy, PartialEq, Eq, Structural)]
pub struct SummaryCounts {
    pub total: usize,
    pub new: usize,
    pub updated: usize,
    pub commented: usize,
}

/// The counts over `prs`: the muted ones are left out, and each of the
/// others counts towards the total and towards its category.
pub open spec fn counts_of(prs: Seq<PullRequest>, per_url: Map<Seq<char>, PrStateView>) -> (
    nat,
    nat,
    nat,
    nat,
) {
    (
        prs.filter(counts_as(per_url, None)).len(),
        prs.filter(counts_as(per_url, Some(Status::New))).len(),
        prs.filter(counts_as(per_url, Some(Status::Updated))).len(),
        prs.filter(counts_as(per_url, Some(Status::Commented))).len(),
    )
}

/// The category of `pr` against what is remembered of it.
pub fn status(pr: &PullRequest, user_state: &UserState) -> (status: Status)
    ensures
        status == status_of(*pr, state_of(user_state.per_url@, pr.url@)),
{
    let pr_state = user_state.state_for(pr.url.as_str());
    let flags = get_pr_state_flags(pr, &pr_state);
    proof {
        lemma_flag_bits(*pr, pr_state@);
    }
    if flags & IS_NEW != 0 {
        Status::New
    } else if flags & IS_UPDATED != 0 {
        Status::Updated
    } else if flags & HAS_NEW_COMMENTS != 0 {
        Status::Commented
    } else {
        Status::Quiet
    }
}

/// Counts the pull requests of `prs` that are not muted, all together and
/// by category.
pub fn count_pull_requests(prs: &Vec<PullRequest>, user_state: &UserState) -> (counts:
    SummaryCounts)
    ensures
        (counts.total as nat, counts.new as nat, counts.updated as nat, counts.commented as nat)
            == counts_of(prs@, user_state.per_url@),
{
    let ghost per_url = user_state.per_url@;
    let mut counts = SummaryCounts { total: 0, new: 0, updated: 0, commented: 0 };
    let n = prs.len();
    let mut i: usize = 0;
    proof {
        reveal(Seq::filter);
        assert(prs@.take(0) =~= Seq::<PullRequest>::empty());
    }
    while i < n
        invariant
            i <= n,
            n == prs@.len(),
            per_url == user_state.per_url@,
            (counts.total as nat, counts.new as nat, counts.updated as nat, counts.commented as nat)
                == counts_of(prs@.take(i as int), per_url),
            counts.total <= i,
            counts.new <= i,
            counts.updated <= i,
            counts.commented <= i,
        decreases n - i,
    {
        proof {
            reveal(Seq::filter);
            assert(prs@.take(i + 1).drop_last() =~= prs@.take(i as int));
            assert(prs@.take(i + 1).last() == prs@[i as int]);
        }
        if !is_mute(user_state, &prs[i]) {
            counts.total = counts.total + 1;
            match status(&prs[i], user_state) {
                Status::New => {
                    counts.new = counts.new + 1;
                },
                Status::Updated => {
                    counts.updated = counts.updated + 1;
                },
                Status::Commented => {
                    counts.commented = counts.commented + 1;
                },
                Status::Quiet => {},
            }
        }
        i += 1;
    }
    assert(prs@.take(n as int) =~= prs@);
    counts
}

/// `format` with the four counts written in decimal in place of `TOT`,
/// `NEW`, `UPD` and `COM`, which are replaced one after the other in that
/// order.
pub open spec fn summary_text(
    format: Seq<char>,
    total: nat,
    new: nat,
    updated: nat,
    commented: nat,
) -> Seq<char> {
    replaced(
        replaced(
            replaced(replaced(format, "TOT"@, decimal(total)), "NEW"@, decimal(new)),
            "UPD"@,
            decimal(updated),
        ),
        "COM"@,
        decimal(commented),
    )
}

/// Writes `counts` into the template `format`.
pub fn render_summary(format: &str, counts: &SummaryCounts) -> (text: String)
    ensures
        text@ == summary_text(
            format@,
            counts.total as nat,
            counts.new as nat,
            counts.updated as nat,
            counts.commented as nat,
        ),
{
    let mut total = String::new();
    push_decimal(&mut total, counts.total as u64);
    let mut new = String::new();
    push_decimal(&mut new, counts.new as u64);
    let mut updated = String::new();
    push_decimal(&mut updated, counts.updated as u64);
    let mut commented = String::new();
    push_decimal(&mut commented, counts.commented as u64);
    assert(total@ =~= decimal(counts.total as nat));
    assert(new@ =~= decimal(counts.new as nat));
    assert(updated@ =~= decimal(counts.updated as nat));
    assert(commented@ =~= decimal(counts.commented as nat));
    let text = replace_all(format, "TOT", total.as_str());
    let text = replace_all(text.as_str(), "NEW", new.as_str());
    let text = replace_all(text.as_str(), "UPD", updated.as_str());
    replace_all(text.as_str(), "COM", commented.as_str())
}

/// The compact summary of `prs`: the counts of the pull requests that are
/// not muted, written into `format`.
pub fn print_compact_summary(prs: &Vec<PullRequest>, user_state: &UserState, format: &str) -> (text:
    String)
    ensures
        text@ == summary_text(
            format@,
            counts_of(prs@, user_state.per_url@).0,
            counts_of(prs@, user_state.per_url@).1,
            counts_of(prs@, user_state.per_url@).2,
            counts_of(prs@, user_state.per_url@).3,
        ),
{
    let counts = count_pull_requests(prs, user_state);
    render_summary(format, &counts)
}

/// Whether a snapshot written at `sync_time` is out of date at `now`: there
/// is none, or it is more than `OUT_OF_SYNC_SECONDS` old.
pub open spec fn out_of_sync(sync_time: Option<Timestamp>, now: Timestamp) -> bool {
    match sync_time {
        Some(written) => written.secs + OUT_OF_SYNC_SECONDS < now.secs || (written.secs
            + OUT_OF_SYNC_SECONDS == now.secs && written.nanos < now.nanos),
        None => true,
    }
}

/// Whether a snapshot written at `sync_time` is out of date at `now`.
pub fn is_out_of_sync(sync_time: Option<Timestamp>, now: Timestamp) -> (stale: bool)
    ensures
        stale == out_of_sync(sync_time, now),
{
    match sync_time {
        Some(written) => {
            let limit: i128 = written.secs as i128 + OUT_OF_SYNC_SECONDS as i128;
            let at: i128 = now.secs as i128;
            limit < at || (limit == at && written.nanos < now.nanos)
        },
        None => true,
    }
}

/// The template to use: the configured one, or the default where none is
/// configured.
pub fn summary_format(configured: &str) -> (format: &str)
    ensures
        format@ == if configured@.len() == 0 {
            DEFAULT_FORMAT@
        } else {
            configured@
        },
{
    if configured.is_empty() {
        DEFAULT_FORMAT
    } else {
        configured
    }
}

/// `prs` after the rules `config` gives have been applied.
pub open spec fn after_actions(config: Config, prs: Seq<PullRequest>) -> Seq<PullRequest> {
    Seq::new(
        prs.len(),
        |i: int| muted_if(prs[i], muted_by(config.actions@, prs[i], config.actions@.len() as int)),
    )
}

/// What the status bar shows at `now`: the compact summary of `prs`, after
/// the rules of `config`, in the configured template; and the out-of-sync
/// text where the snapshot, written at `sync_time`, is missing or out of
/// date.
pub fn show_compact_summary(
    config: &Config,
    prs: &Vec<PullRequest>,
    user_state: &UserState,
    sync_time: Option<Timestamp>,
    now: Timestamp,
) -> (text: String)
    ensures
        out_of_sync(sync_time, now) ==> text@ == OUT_OF_SYNC_TEXT@,
        !out_of_sync(sync_time, now) ==> {
            let counts = counts_of(after_actions(*config, prs@), user_state.per_url@);
            let format = if config.compact_format@.len() == 0 {
                DEFAULT_FORMAT@
            } else {
                config.compact_format@
            };
            text@ == summary_text(format, counts.0, counts.1, counts.2, counts.3)
        },
{
    if is_out_of_sync(sync_time, now) {
        return String::from_str(OUT_OF_SYNC_TEXT);
    }
    let acted = apply_actions(config, prs);
    assert(acted@ =~= after_actions(*config, prs@));
    print_compact_summary(&acted, user_state, summary_format(config.compact_format.as_str()))
}

} // verus!
