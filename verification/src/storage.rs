//! Where state is kept and how it is written, what is remembered of each
//! pull request, and how that changes when a pull request is opened, muted
//! or annotated.

use vstd::prelude::*;
use vstd::string::StringExecFns;
use crate::error::Error;
use crate::fzf::VIEW_MODE_REGULAR;
use crate::gh::{
    find_by_url, first_with_url, is_first_with_url, url_occurs, PullRequest, Timestamp,
};
use crate::util::{cycle, cycle_spec, views};

verus! {

/// Where the two state files live.
#[derive(Debug)]
pub struct FileStorage {
    pub prs_state_path: String,
    pub user_state_path: String,
}

impl FileStorage {
    /// The two files under their usual names, relative to wherever the
    /// caller keeps them.
    pub fn new() -> (storage: Self)
        ensures
            storage.prs_state_path@ == "gh_daemon_state.json"@,
            storage.user_state_path@ == "gh_user_state.json"@,
    {
        FileStorage {
            prs_state_path: String::from_str("gh_daemon_state.json"),
            user_state_path: String::from_str("gh_user_state.json"),
        }
    }
}

impl Clone for FileStorage {
    fn clone(&self) -> (r: Self)
        ensures
            r == *self,
    {
        FileStorage {
            prs_state_path: self.prs_state_path.clone(),
            user_state_path: self.user_state_path.clone(),
        }
    }
}

/// What came of reading a stored file.
#[derive(Debug)]
pub enum Loaded<T> {
    /// There is no such file.
    Missing,
    /// The file is there, but what it holds cannot be decoded.
    Unreadable,
    /// The file held this value.
    Decoded(T),
}

/// The snapshot that was read, or why there is none: before the first run
/// none has been stored, and one that cannot be decoded is not repaired.
pub fn snapshot_from(loaded: Loaded<Vec<PullRequest>>) -> (snapshot: Result<
    Vec<PullRequest>,
    Error,
>)
    ensures
        snapshot == match loaded {
            Loaded::Missing => Err::<Vec<PullRequest>, Error>(Error::NoSnapshot),
            Loaded::Unreadable => Err(Error::Corrupt),
            Loaded::Decoded(prs) => Ok(prs),
        },
{
    match loaded {
        Loaded::Missing => Err(Error::NoSnapshot),
        Loaded::Unreadable => Err(Error::Corrupt),
        Loaded::Decoded(prs) => Ok(prs),
    }
}

/// One step of storing a file.
#[derive(Debug)]
pub enum FileStep {
    /// Remove the file at this path, if there is one.
    Discard(String),
    /// Write these bytes to the file at this path, in place of what it
    /// held.
    Write(String, Vec<u8>),
    /// Move the file at the first path over the one at the second, in one
    /// step.
    Rename(String, String),
}

/// The files of a directory: what each path holds.
pub type Files = Map<Seq<char>, Seq<u8>>;

/// The files after `step`.
pub open spec fn after_step(files: Files, step: FileStep) -> Files {
    match step {
        FileStep::Discard(path) => files.remove(path@),
        FileStep::Write(path, data) => files.insert(path@, data@),
        FileStep::Rename(from, to) => if files.contains_key(from@) {
            files.remove(from@).insert(to@, files[from@])
        } else {
            files
        },
    }
}

/// The files after the first `count` of `steps`.
pub open spec fn after_steps(files: Files, steps: Seq<FileStep>, count: int) -> Files
    decreases count,
{
    if count <= 0 || count > steps.len() {
        files
    } else {
        after_step(after_steps(files, steps, count - 1), steps[count - 1])
    }
}

/// The path beside `target` under which new content waits to be moved.
pub open spec fn temp_path(target: Seq<char>) -> Seq<char> {
    target + ".temp"@
}

/// The steps that store `data` at `target`.
pub open spec fn write_steps(steps: Seq<FileStep>, target: Seq<char>, data: Seq<u8>) -> bool {
    &&& steps.len() == 3
    &&& steps[0] matches FileStep::Discard(stale) && stale@ == temp_path(target)
    &&& steps[1] matches FileStep::Write(path, bytes) && path@ == temp_path(target) && bytes@
        == data
    &&& steps[2] matches FileStep::Rename(from, to) && from@ == temp_path(target) && to@
        == target
}

impl FileStorage {
    /// The steps that put `data` in place of what `target` holds, so that a
    /// reader finds either all of the old content or all of the new: what
    /// an earlier, interrupted write has left beside the target is
    /// discarded, the new content is written beside the target, and then
    /// moved over it in one step.
    pub fn write_at_once(target: &str, data: Vec<u8>) -> (steps: Vec<FileStep>)
        ensures
            write_steps(steps@, target@, data@),
    {
        let mut temp = target.to_owned();
        temp.append(".temp");
        let mut steps: Vec<FileStep> = Vec::new();
        steps.push(FileStep::Discard(temp.clone()));
        steps.push(FileStep::Write(temp.clone(), data));
        steps.push(FileStep::Rename(temp, target.to_owned()));
        steps
    }
}

/// A write that is interrupted after any number of its steps leaves the
/// target as it was; once all steps are done the target holds the new
/// content and nothing is left beside it.
pub proof fn lemma_write_at_once_atomic(
    files: Files,
    steps: Seq<FileStep>,
    target: Seq<char>,
    data: Seq<u8>,
    done: int,
)
    requires
        write_steps(steps, target, data),
        0 <= done <= 3,
    ensures
        done < 3 ==> after_steps(files, steps, done).contains_key(target) == files.contains_key(
            target,
        ),
        done < 3 && files.contains_key(target) ==> after_steps(files, steps, done)[target]
            == files[target],
        done == 3 ==> after_steps(files, steps, done).contains_key(target) && after_steps(
            files,
            steps,
            done,
        )[target] == data,
        done == 3 ==> !after_steps(files, steps, done).contains_key(temp_path(target)),
{
    reveal_strlit(".temp");
    assert(temp_path(target).len() == target.len() + 5);
    assert(temp_path(target) != target);
    reveal_with_fuel(after_steps, 4);
}

/// A write that follows an interrupted one goes through as if nothing had
/// happened: what the interrupted write left behind does not show.
pub proof fn lemma_write_after_interruption(
    files: Files,
    steps: Seq<FileStep>,
    again: Seq<FileStep>,
    target: Seq<char>,
    data: Seq<u8>,
    next: Seq<u8>,
    done: int,
)
    requires
        write_steps(steps, target, data),
        write_steps(again, target, next),
        0 <= done < 3,
    ensures
        after_steps(after_steps(files, steps, done), again, 3)[target] == next,
        after_steps(after_steps(files, steps, done), again, 3).contains_key(target),
        !after_steps(after_steps(files, steps, done), again, 3).contains_key(temp_path(target)),
{
    lemma_write_at_once_atomic(after_steps(files, steps, done), again, target, next, 3);
}

/// What is remembered of one pull request.
#[derive(Debug)]
pub struct PrState {
    /// The pull request's time of last update when the user last opened it.
    pub opened_at: Option<Timestamp>,
    /// The number of comments it had then.
    pub last_comment_count: i32,
    /// The user's note; empty where there is none.
    pub note: String,
    /// Whether the user has muted it.
    pub is_mute: bool,
}

/// A `PrState` as plain values.
pub ghost struct PrStateView {
    pub opened_at: Option<Timestamp>,
    pub last_comment_count: i32,
    pub note: Seq<char>,
    pub is_mute: bool,
}

impl View for PrState {
    type V = PrStateView;

    open spec fn view(&self) -> PrStateView {
        PrStateView {
            opened_at: self.opened_at,
            last_comment_count: self.last_comment_count,
            note: self.note@,
            is_mute: self.is_mute,
        }
    }
}

/// The state of a pull request that the user has never touched.
pub open spec fn default_state() -> PrStateView {
    PrStateView { opened_at: None, last_comment_count: 0, note: Seq::empty(), is_mute: false }
}

impl Default for PrState {
    fn default() -> (r: Self)
        ensures
            r@ == default_state(),
    {
        PrState { opened_at: None, last_comment_count: 0, note: String::new(), is_mute: false }
    }
}

impl Clone for PrState {
    fn clone(&self) -> (r: Self)
        ensures
            r == *self,
    {
        PrState {
            opened_at: self.opened_at,
            last_comment_count: self.last_comment_count,
            note: self.note.clone(),
            is_mute: self.is_mute,
        }
    }
}

/// The view mode of a user who has chosen none: the first of the view
/// modes, which shows every pull request in its place.
pub open spec fn default_mode() -> Seq<char> {
    VIEW_MODE_REGULAR@
}

/// The view mode of a user who has chosen none.
pub fn default_view_mode() -> (mode: String)
    ensures
        mode@ == default_mode(),
{
    String::from_str(VIEW_MODE_REGULAR)
}

/// The user's settings.
#[derive(Debug)]
pub struct UserSettings {
    pub view_mode: String,
}

impl Default for UserSettings {
    fn default() -> (r: Self)
        ensures
            r.view_mode@ == default_mode(),
    {
        UserSettings { view_mode: default_view_mode() }
    }
}

impl Clone for UserSettings {
    fn clone(&self) -> (r: Self)
        ensures
            r == *self,
    {
        UserSettings { view_mode: self.view_mode.clone() }
    }
}

/// One remembered pull request: its url and its state.
#[derive(Debug)]
pub struct UrlEntry {
    pub url: String,
    pub state: PrState,
}

impl Clone for UrlEntry {
    fn clone(&self) -> (r: Self)
        ensures
            r == *self,
    {
        UrlEntry { url: self.url.clone(), state: self.state.clone() }
    }
}

/// The map that `entries` stand for: each url with its state, a later entry
/// replacing an earlier one with the same url.
pub open spec fn entries_map(entries: Seq<UrlEntry>) -> Map<Seq<char>, PrStateView>
    decreases entries.len(),
{
    if entries.len() == 0 {
        Map::empty()
    } else {
        entries_map(entries.drop_last()).insert(entries.last().url@, entries.last().state@)
    }
}

/// Whether no url occurs twice in `entries`.
pub open spec fn entry_urls_distinct(entries: Seq<UrlEntry>) -> bool {
    forall|i: int, j: int| 0 <= i < j < entries.len() ==> entries[i].url@ != entries[j].url@
}

/// The domain of `entries_map` is the urls of the entries, and where no url
/// occurs twice each url has the state of its entry.
pub proof fn lemma_entries_map(entries: Seq<UrlEntry>)
    ensures
        forall|url: Seq<char>| #[trigger]
            entries_map(entries).contains_key(url) <==> exists|i: int|
                0 <= i < entries.len() && #[trigger] entries[i].url@ == url,
        entry_urls_distinct(entries) ==> forall|i: int|
            0 <= i < entries.len() ==> entries_map(entries)[#[trigger] entries[i].url@]
                == entries[i].state@,
        entries_map(entries).dom().finite(),
    decreases entries.len(),
{
    if entries.len() > 0 {
        let rest = entries.drop_last();
        let last = entries.last();
        lemma_entries_map(rest);
        assert forall|url: Seq<char>| #[trigger]
            entries_map(entries).contains_key(url) <==> exists|i: int|
                0 <= i < entries.len() && #[trigger] entries[i].url@ == url by {
            if entries_map(entries).contains_key(url) {
                if url == last.url@ {
                    assert(entries[entries.len() - 1].url@ == url);
                } else {
                    assert(entries_map(rest).contains_key(url));
                    let i = choose|i: int| 0 <= i < rest.len() && #[trigger] rest[i].url@ == url;
                    assert(entries[i].url@ == url);
                }
            }
            if exists|i: int| 0 <= i < entries.len() && #[trigger] entries[i].url@ == url {
                let i = choose|i: int| 0 <= i < entries.len() && #[trigger] entries[i].url@ == url;
                if i < rest.len() {
                    assert(rest[i].url@ == url);
                }
            }
        }
        if entry_urls_distinct(entries) {
            assert(entry_urls_distinct(rest)) by {
                assert forall|i: int, j: int| 0 <= i < j < rest.len() implies rest[i].url@
                    != rest[j].url@ by {
                    assert(rest[i] == entries[i] && rest[j] == entries[j]);
                }
            }
            assert forall|i: int| 0 <= i < entries.len() implies entries_map(
                entries,
            )[#[trigger] entries[i].url@] == entries[i].state@ by {
                if i < rest.len() {
                    assert(rest[i] == entries[i]);
                    assert(entries[i].url@ != last.url@);
                }
            }
        }
    }
}

/// Replacing the entry at `i` by one with the same url replaces that url's
/// state in the map, where no url occurs twice.
pub proof fn lemma_entries_map_update(entries: Seq<UrlEntry>, i: int, entry: UrlEntry)
    requires
        entry_urls_distinct(entries),
        0 <= i < entries.len(),
        entries[i].url@ == entry.url@,
    ensures
        entry_urls_distinct(entries.update(i, entry)),
        entries_map(entries.update(i, entry)) == entries_map(entries).insert(
            entry.url@,
            entry.state@,
        ),
    decreases entries.len(),
{
    let updated = entries.update(i, entry);
    let rest = entries.drop_last();
    if i == entries.len() - 1 {
        assert(updated.drop_last() =~= rest);
        assert(entries_map(updated) =~= entries_map(entries).insert(entry.url@, entry.state@));
    } else {
        assert(entry_urls_distinct(rest)) by {
            assert forall|a: int, b: int| 0 <= a < b < rest.len() implies rest[a].url@
                != rest[b].url@ by {
                assert(rest[a] == entries[a] && rest[b] == entries[b]);
            }
        }
        assert(rest[i] == entries[i]);
        lemma_entries_map_update(rest, i, entry);
        assert(updated.drop_last() =~= rest.update(i, entry));
        assert(updated.last() == entries.last());
        assert(entries.last().url@ != entry.url@);
        assert(entries_map(updated) =~= entries_map(entries).insert(entry.url@, entry.state@));
    }
    assert forall|a: int, b: int| 0 <= a < b < updated.len() implies updated[a].url@
        != updated[b].url@ by {
        assert(updated[a].url@ == entries[a].url@);
        assert(updated[b].url@ == entries[b].url@);
    }
}

/// The state of each pull request that the user has touched, by url.
#[derive(Debug)]
pub struct UrlStates {
    entries: Vec<UrlEntry>,
}

impl View for UrlStates {
    type V = Map<Seq<char>, PrStateView>;

    closed spec fn view(&self) -> Map<Seq<char>, PrStateView> {
        entries_map(self.entries@)
    }
}

impl UrlStates {
    #[verifier::type_invariant]
    spec fn urls_once(self) -> bool {
        entry_urls_distinct(self.entries@)
    }

    /// The entries behind the map, in the order in which their urls were
    /// first inserted.
    pub closed spec fn entries_spec(self) -> Seq<UrlEntry> {
        self.entries@
    }

    /// A map without entries.
    pub fn new() -> (states: Self)
        ensures
            states@ == Map::<Seq<char>, PrStateView>::empty(),
            states.entries_spec().len() == 0,
    {
        UrlStates { entries: Vec::new() }
    }

    /// The number of urls with a state.
    pub fn len(&self) -> (n: usize)
        ensures
            n == self.entries_spec().len(),
            n == self@.len(),
            self@ == entries_map(self.entries_spec()),
            entry_urls_distinct(self.entries_spec()),
    {
        proof {
            use_type_invariant(self);
            lemma_entries_map_len(self.entries@);
        }
        self.entries.len()
    }

    /// The entry at position `i`.
    pub fn entry(&self, i: usize) -> (entry: &UrlEntry)
        requires
            i < self.entries_spec().len(),
        ensures
            *entry == self.entries_spec()[i as int],
            self@.contains_key(entry.url@),
            self@[entry.url@] == entry.state@,
    {
        proof {
            use_type_invariant(self);
            lemma_entries_map(self.entries@);
        }
        &self.entries[i]
    }

    /// The state remembered for `url`, if there is one.
    pub fn get(&self, url: &str) -> (found: Option<&PrState>)
        ensures
            match found {
                Some(state) => self@.contains_key(url@) && state@ == self@[url@],
                None => !self@.contains_key(url@),
            },
    {
        let wanted = url.to_owned();
        match self.position(&wanted) {
            Some(i) => Some(&self.entries[i].state),
            None => None,
        }
    }

    /// Whether a state is remembered for `url`.
    pub fn contains(&self, url: &str) -> (found: bool)
        ensures
            found == self@.contains_key(url@),
    {
        let wanted = url.to_owned();
        self.position(&wanted).is_some()
    }

    fn position(&self, url: &String) -> (found: Option<usize>)
        ensures
            match found {
                Some(i) => i < self.entries@.len() && self.entries@[i as int].url@ == url@
                    && self@.contains_key(url@) && self@[url@] == self.entries@[i as int].state@,
                None => !self@.contains_key(url@),
            },
    {
        proof {
            use_type_invariant(self);
            lemma_entries_map(self.entries@);
        }
        let n = self.entries.len();
        let mut i: usize = 0;
        while i < n
            invariant
                i <= n,
                n == self.entries@.len(),
                forall|j: int| 0 <= j < i ==> self.entries@[j].url@ != url@,
            decreases n - i,
        {
            if self.entries[i].url == *url {
                proof {
                    use_type_invariant(self);
                    lemma_entries_map(self.entries@);
                }
                return Some(i);
            }
            i += 1;
        }
        proof {
            lemma_entries_map(self.entries@);
        }
        None
    }

    /// Remembers `state` for `url`, in place of what was remembered for it.
    pub fn insert(&mut self, url: String, state: PrState)
        ensures
            final(self)@ == old(self)@.insert(url@, state@),
    {
        proof {
            use_type_invariant(&*self);
        }
        let found = self.position(&url);
        let entry = UrlEntry { url, state };
        match found {
            Some(i) => {
                proof {
                    lemma_entries_map_update(self.entries@, i as int, entry);
                }
                let mut entries: Vec<UrlEntry> = Vec::new();
                core::mem::swap(&mut self.entries, &mut entries);
                entries.set(i, entry);
                core::mem::swap(&mut self.entries, &mut entries);
            },
            None => {
                proof {
                    lemma_entries_map(self.entries@);
                    assert(self.entries@.push(entry).drop_last() =~= self.entries@);
                    assert forall|a: int, b: int|
                        0 <= a < b < self.entries@.push(entry).len() implies self.entries@.push(
                        entry,
                    )[a].url@ != self.entries@.push(entry)[b].url@ by {
                        if b == self.entries@.len() {
                            assert(self.entries@[a].url@ != entry.url@);
                        }
                    }
                }
                let mut entries: Vec<UrlEntry> = Vec::new();
                core::mem::swap(&mut self.entries, &mut entries);
                entries.push(entry);
                core::mem::swap(&mut self.entries, &mut entries);
            },
        }
    }
}

/// Where no url occurs twice, the map has as many urls as there are entries.
pub proof fn lemma_entries_map_len(entries: Seq<UrlEntry>)
    requires
        entry_urls_distinct(entries),
    ensures
        entries_map(entries).len() == entries.len(),
        entries_map(entries).dom().finite(),
    decreases entries.len(),
{
    lemma_entries_map(entries);
    if entries.len() > 0 {
        let rest = entries.drop_last();
        assert(entry_urls_distinct(rest)) by {
            assert forall|a: int, b: int| 0 <= a < b < rest.len() implies rest[a].url@
                != rest[b].url@ by {
                assert(rest[a] == entries[a] && rest[b] == entries[b]);
            }
        }
        lemma_entries_map_len(rest);
        lemma_entries_map(rest);
        assert(!entries_map(rest).contains_key(entries.last().url@)) by {
            if entries_map(rest).contains_key(entries.last().url@) {
                let i = choose|i: int|
                    0 <= i < rest.len() && #[trigger] rest[i].url@ == entries.last().url@;
                assert(rest[i] == entries[i]);
            }
        }
    }
}

/// Everything that is remembered for the user.
#[derive(Debug)]
pub struct UserState {
    pub per_url: UrlStates,
    pub settings: UserSettings,
}

impl Default for UserState {
    /// Nothing remembered, and the default settings.
    fn default() -> (r: Self)
        ensures
            r.per_url@ == Map::<Seq<char>, PrStateView>::empty(),
            r.settings.view_mode@ == default_mode(),
    {
        UserState { per_url: UrlStates::new(), settings: UserSettings::default() }
    }
}

/// The user state that was read. Where none has been stored yet, nothing
/// is remembered and the settings are the default ones; a stored state
/// that cannot be decoded is not repaired.
pub fn user_state_from(loaded: Loaded<UserState>) -> (state: Result<UserState, Error>)
    ensures
        match loaded {
            Loaded::Missing => state matches Ok(fresh) && fresh.per_url@ == Map::<
                Seq<char>,
                PrStateView,
            >::empty() && fresh.settings.view_mode@ == default_mode(),
            Loaded::Unreadable => state == Err::<UserState, Error>(Error::Corrupt),
            Loaded::Decoded(stored) => state == Ok::<UserState, Error>(stored),
        },
{
    match loaded {
        Loaded::Missing => Ok(UserState::default()),
        Loaded::Unreadable => Err(Error::Corrupt),
        Loaded::Decoded(stored) => Ok(stored),
    }
}

/// The pull request has more comments than when the user last opened it.
pub const HAS_NEW_COMMENTS: u8 = 1;

/// The pull request was updated after the user last opened it.
pub const IS_UPDATED: u8 = 2;

/// The user has never opened the pull request.
pub const IS_NEW: u8 = 4;

/// Whether `pr` has more comments than `state` remembers.
pub open spec fn has_new_comments(pr: PullRequest, state: PrStateView) -> bool {
    pr.comments_count > state.last_comment_count
}

/// Whether `state` says that the pull request was never opened.
pub open spec fn is_new(state: PrStateView) -> bool {
    state.opened_at is None
}

/// Whether `pr` was updated after it was last opened.
pub open spec fn is_updated(pr: PullRequest, state: PrStateView) -> bool {
    match state.opened_at {
        Some(opened_at) => pr.updated_at.after(opened_at),
        None => false,
    }
}

/// The flags of `pr` against `state`: the sum of the flag values that hold.
pub open spec fn flags_of(pr: PullRequest, state: PrStateView) -> u8 {
    let comments: u8 = if has_new_comments(pr, state) {
        HAS_NEW_COMMENTS
    } else {
        0
    };
    let updated: u8 = if is_updated(pr, state) {
        IS_UPDATED
    } else {
        0
    };
    let fresh: u8 = if is_new(state) {
        IS_NEW
    } else {
        0
    };
    (comments + updated + fresh) as u8
}

/// Each flag is set in `flags_of` exactly when its condition holds.
pub proof fn lemma_flag_bits(pr: PullRequest, state: PrStateView)
    ensures
        flags_of(pr, state) & HAS_NEW_COMMENTS != 0 <==> has_new_comments(pr, state),
        flags_of(pr, state) & IS_UPDATED != 0 <==> is_updated(pr, state),
        flags_of(pr, state) & IS_NEW != 0 <==> is_new(state),
{
    let f = flags_of(pr, state);
    assert(!(is_updated(pr, state) && is_new(state)));
    assert(f == 0 || f == 1 || f == 2 || f == 3 || f == 4 || f == 5);
    assert(f == 0 || f == 1 || f == 2 || f == 3 || f == 4 || f == 5 ==> ((f & 1 != 0) <==> (f == 1
        || f == 3 || f == 5)) && ((f & 2 != 0) <==> (f == 2 || f == 3)) && ((f & 4 != 0) <==> (f
        == 4 || f == 5))) by (bit_vector);
}

/// The flags of a pull request against what is remembered of it: whether
/// it has new comments, was updated since it was opened, or was never
/// opened.
pub fn get_pr_state_flags(pr: &PullRequest, pr_state: &PrState) -> (flags: u8)
    ensures
        flags == flags_of(*pr, pr_state@),
{
    let mut flags: u8 = 0;
    if pr.comments_count > pr_state.last_comment_count {
        flags = flags | HAS_NEW_COMMENTS;
        assert(0u8 | 1u8 == 1u8) by (bit_vector);
    }
    match pr_state.opened_at {
        None => {
            assert(0u8 | 4u8 == 4u8 && 1u8 | 4u8 == 5u8) by (bit_vector);
            flags = flags | IS_NEW;
        },
        Some(opened_at) => {
            if pr.updated_at.is_after(&opened_at) {
                assert(0u8 | 2u8 == 2u8 && 1u8 | 2u8 == 3u8) by (bit_vector);
                flags = flags | IS_UPDATED;
            }
        },
    }
    flags
}

/// What is remembered for `url`: its state where there is one, and the
/// state of an untouched pull request where there is none.
pub open spec fn state_of(per_url: Map<Seq<char>, PrStateView>, url: Seq<char>) -> PrStateView {
    if per_url.contains_key(url) {
        per_url[url]
    } else {
        default_state()
    }
}

/// Whether `state` was recorded when `pr` stood as it stands now: at its
/// present time of update and number of comments.
pub open spec fn up_to_date(state: PrStateView, pr: PullRequest) -> bool {
    state.opened_at == Some(pr.updated_at) && state.last_comment_count == pr.comments_count
}

/// `state` after the user has opened `pr`.
pub open spec fn opened(state: PrStateView, pr: PullRequest) -> PrStateView {
    PrStateView {
        opened_at: Some(pr.updated_at),
        last_comment_count: pr.comments_count,
        ..state
    }
}

/// The states after the user has opened `pr`: unchanged where the state of
/// `pr` is up to date.
pub open spec fn marked_opened(per_url: Map<Seq<char>, PrStateView>, pr: PullRequest) -> Map<
    Seq<char>,
    PrStateView,
> {
    if up_to_date(state_of(per_url, pr.url@), pr) {
        per_url
    } else {
        per_url.insert(pr.url@, opened(state_of(per_url, pr.url@), pr))
    }
}

/// Opening a pull request a second time, while it stands as it stood,
/// changes nothing: after the first time its state is up to date.
pub proof fn lemma_mark_opened_twice(per_url: Map<Seq<char>, PrStateView>, pr: PullRequest)
    ensures
        up_to_date(state_of(marked_opened(per_url, pr), pr.url@), pr),
        marked_opened(marked_opened(per_url, pr), pr) == marked_opened(per_url, pr),
{
}

/// The pull request of the snapshot `prs` with the url `url`.
pub fn get_pr_for_url(prs: &Vec<PullRequest>, url: &str) -> (found: Result<PullRequest, Error>)
    ensures
        match found {
            Ok(pr) => {
                &&& is_first_with_url(prs@, url@, first_with_url(prs@, url@))
                &&& pr == prs@[first_with_url(prs@, url@)]
            },
            Err(e) => !url_occurs(prs@, url@) && (e matches Error::NotFound { url: missing }
                && missing@ == url@),
        },
{
    match find_by_url(prs, url) {
        Some(i) => Ok(prs[i].clone()),
        None => Err(Error::NotFound { url: url.to_owned() }),
    }
}

impl UserState {
    /// A copy of what is remembered for `url`, or the state of an untouched
    /// pull request.
    pub fn state_for(&self, url: &str) -> (state: PrState)
        ensures
            state@ == state_of(self.per_url@, url@),
    {
        match self.per_url.get(url) {
            Some(state) => state.clone(),
            None => PrState::default(),
        }
    }

    /// Records that the user has opened `pr`, unless that is recorded
    /// already; says whether anything changed, so whether the state has
    /// to be stored.
    pub fn mark_opened(&mut self, pr: &PullRequest) -> (changed: bool)
        ensures
            changed == !up_to_date(state_of(old(self).per_url@, pr.url@), *pr),
            final(self).per_url@ == marked_opened(old(self).per_url@, *pr),
            final(self).settings == old(self).settings,
    {
        let mut pr_state = self.state_for(pr.url.as_str());
        if pr_state.opened_at.is_some() && pr_state.opened_at.unwrap() == pr.updated_at
            && pr_state.last_comment_count == pr.comments_count {
            return false;
        }
        pr_state.opened_at = Some(pr.updated_at);
        pr_state.last_comment_count = pr.comments_count;
        self.per_url.insert(pr.url.clone(), pr_state);
        true
    }

    /// Flips the mute flag of `url`, starting from the state of an untouched
    /// pull request where none is remembered.
    pub fn toggle_mute(&mut self, url: &str)
        ensures
            final(self).per_url@ == old(self).per_url@.insert(
                url@,
                (PrStateView {
                    is_mute: !state_of(old(self).per_url@, url@).is_mute,
                    ..state_of(old(self).per_url@, url@)
                }),
            ),
            final(self).settings == old(self).settings,
    {
        let mut pr_state = self.state_for(url);
        pr_state.is_mute = !pr_state.is_mute;
        self.per_url.insert(url.to_owned(), pr_state);
    }

    /// Replaces the note of `url` by `note`.
    pub fn set_note(&mut self, url: &str, note: &str)
        ensures
            final(self).per_url@ == old(self).per_url@.insert(
                url@,
                (PrStateView { note: note@, ..state_of(old(self).per_url@, url@) }),
            ),
            final(self).settings == old(self).settings,
    {
        let mut pr_state = self.state_for(url);
        pr_state.note = note.to_owned();
        self.per_url.insert(url.to_owned(), pr_state);
    }
}

/// Marks the pull request with the url `url` as opened by the user.
///
/// Fails where the snapshot `prs` holds no such pull request. Otherwise
/// says whether the state changed: it does not where the pull request was
/// opened before and has neither been updated nor commented on since.
pub fn mark_url_as_opened(prs: &Vec<PullRequest>, user_state: &mut UserState, url: &str) -> (marked:
    Result<bool, Error>)
    ensures
        final(user_state).settings == old(user_state).settings,
        match marked {
            Ok(changed) => {
                let pr = prs@[first_with_url(prs@, url@)];
                &&& is_first_with_url(prs@, url@, first_with_url(prs@, url@))
                &&& changed == !up_to_date(state_of(old(user_state).per_url@, url@), pr)
                &&& final(user_state).per_url@ == marked_opened(old(user_state).per_url@, pr)
            },
            Err(e) => {
                &&& !url_occurs(prs@, url@)
                &&& e matches Error::NotFound { url: missing } && missing@ == url@
                &&& final(user_state).per_url@ == old(user_state).per_url@
            },
        },
{
    match get_pr_for_url(prs, url) {
        Ok(pr) => Ok(user_state.mark_opened(&pr)),
        Err(e) => Err(e),
    }
}

/// Flips the mute flag of `url` in `user_state`.
pub fn mark_url_as_muted(user_state: &mut UserState, url: &str)
    ensures
        final(user_state).per_url@ == old(user_state).per_url@.insert(
            url@,
            (PrStateView {
                is_mute: !state_of(old(user_state).per_url@, url@).is_mute,
                ..state_of(old(user_state).per_url@, url@)
            }),
        ),
        final(user_state).settings == old(user_state).settings,
{
    user_state.toggle_mute(url);
}

/// Replaces the note of `url` in `user_state` by `note`.
pub fn add_note(user_state: &mut UserState, url: &str, note: &str)
    ensures
        final(user_state).per_url@ == old(user_state).per_url@.insert(
            url@,
            (PrStateView { note: note@, ..state_of(old(user_state).per_url@, url@) }),
        ),
        final(user_state).settings == old(user_state).settings,
{
    user_state.set_note(url, note);
}

/// The notes that a pull request goes through: the annotations of the
/// configuration, and after them no note.
pub open spec fn note_round(annotations: Seq<Seq<char>>) -> Seq<Seq<char>> {
    annotations.push(Seq::empty())
}

/// Gives the pull request with the url `url` the note that follows its
/// present one: the next annotation, after the last annotation no note,
/// and the first annotation where its note is none of them.
///
/// Fails, and changes nothing, where there are no annotations.
pub fn cycle_note(user_state: &mut UserState, annotations: &Vec<String>, url: &str) -> (done:
    Result<(), Error>)
    ensures
        final(user_state).settings == old(user_state).settings,
        annotations@.len() == 0 ==> done == Err::<(), Error>(Error::NoAnnotations)
            && final(user_state).per_url@ == old(user_state).per_url@,
        annotations@.len() > 0 ==> done is Ok
            && final(user_state).per_url@ == old(user_state).per_url@.insert(
            url@,
            (PrStateView {
                note: cycle_spec(
                    state_of(old(user_state).per_url@, url@).note,
                    note_round(views(annotations@)),
                ),
                ..state_of(old(user_state).per_url@, url@)
            }),
        ),
{
    if annotations.len() == 0 {
        return Err(Error::NoAnnotations);
    }
    let current = user_state.state_for(url);
    let mut round = annotations.clone();
    round.push(String::new());
    assert(views(round@) =~= note_round(views(annotations@)));
    let next = cycle(current.note.as_str(), round.as_slice());
    user_state.set_note(url, next.as_str());
    Ok(())
}

} // verus!
