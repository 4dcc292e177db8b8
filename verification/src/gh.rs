//! The records that the tracker hands out: a pull request, its author and
//! repository, and the instant at which something happened to it.

use vstd::prelude::*;

verus! {

/// An instant: whole seconds since the Unix epoch and the nanoseconds into
/// that second.
///
/// An instant within a leap second is written with the second before it
/// and a thousand million nanoseconds or more.
#[derive(Debug, Clone, Copy, PartialEq, Eq, Structural)]
pub struct Timestamp {
    pub secs: i64,
    pub nanos: u32,
}

impl Timestamp {
    /// Whether `self` lies strictly after `other`: seconds decide, and
    /// nanoseconds where the seconds agree.
    pub open spec fn after(self, other: Timestamp) -> bool {
        self.secs > other.secs || (self.secs == other.secs && self.nanos > other.nanos)
    }

    /// The second of its day in which the instant lies, midnight being 0.
    pub open spec fn second_of_day(self) -> int {
        (self.secs as int) % 86400
    }

    /// The leap second that lies between `earlier` and `self` and that
    /// their seconds do not count: one where `earlier` lies within a leap
    /// second and `self` in a later second of its day, one less where
    /// `self` lies within a leap second and `earlier` in a later second of
    /// its day, and none otherwise.
    pub open spec fn leap_seconds_since(self, earlier: Timestamp) -> int {
        if self.second_of_day() > earlier.second_of_day() && earlier.nanos >= 1_000_000_000 {
            1
        } else if self.second_of_day() < earlier.second_of_day() && self.nanos
            >= 1_000_000_000 {
            -1
        } else {
            0
        }
    }

    /// The nanoseconds from `earlier` to `self`.
    pub open spec fn nanos_since(self, earlier: Timestamp) -> int {
        (self.secs - earlier.secs + self.leap_seconds_since(earlier)) * 1_000_000_000 + (
        self.nanos - earlier.nanos)
    }

    /// Whole seconds from `earlier` to `self`, rounded towards zero; negative
    /// where `self` is the earlier one.
    pub open spec fn whole_seconds_since(self, earlier: Timestamp) -> int {
        let d = self.nanos_since(earlier);
        if d >= 0 {
            d / 1_000_000_000
        } else {
            -((-d) / 1_000_000_000)
        }
    }

    /// What `seconds_since` returns: the whole seconds from `earlier` to
    /// `self`, held to the range of `i64`.
    pub open spec fn seconds_since_spec(self, earlier: Timestamp) -> int {
        if self.whole_seconds_since(earlier) > i64::MAX {
            i64::MAX as int
        } else if self.whole_seconds_since(earlier) < i64::MIN {
            i64::MIN as int
        } else {
            self.whole_seconds_since(earlier)
        }
    }

    pub fn new(secs: i64, nanos: u32) -> (t: Timestamp)
        ensures
            t.secs == secs,
            t.nanos == nanos,
    {
        Timestamp { secs, nanos }
    }

    /// Whether `self` lies strictly after `other`.
    pub fn is_after(&self, other: &Timestamp) -> (r: bool)
        ensures
            r == self.after(*other),
    {
        self.secs > other.secs || (self.secs == other.secs && self.nanos > other.nanos)
    }

    /// The second of its day in which the instant lies.
    pub fn day_second(&self) -> (second: i64)
        ensures
            second == self.second_of_day(),
            0 <= second < 86400,
    {
        if self.secs >= 0 {
            self.secs % 86400
        } else {
            let back: i128 = (-(self.secs as i128)) % 86400;
            if back == 0 {
                0
            } else {
                (86400 - back) as i64
            }
        }
    }

    /// Whole seconds from `earlier` to `self`, rounded towards zero, and
    /// held to the range of `i64` where the two lie further apart.
    pub fn seconds_since(&self, earlier: &Timestamp) -> (seconds: i64)
        ensures
            seconds == self.seconds_since_spec(*earlier),
    {
        let here = self.day_second();
        let there = earlier.day_second();
        let leap: i128 = if here > there && earlier.nanos >= 1_000_000_000 {
            1
        } else if here < there && self.nanos >= 1_000_000_000 {
            -1
        } else {
            0
        };
        let secs: i128 = self.secs as i128 - earlier.secs as i128 + leap;
        let nanos: i128 = self.nanos as i128 - earlier.nanos as i128;
        let total: i128 = secs * 1_000_000_000 + nanos;
        let whole: i128 = if total >= 0 {
            total / 1_000_000_000
        } else {
            -((-total) / 1_000_000_000)
        };
        if whole > i64::MAX as i128 {
            i64::MAX
        } else if whole < i64::MIN as i128 {
            i64::MIN
        } else {
            whole as i64
        }
    }

    /// Whether `self` lies strictly before `other`.
    pub fn is_before(&self, other: &Timestamp) -> (r: bool)
        ensures
            r == other.after(*self),
    {
        other.is_after(self)
    }
}

/// Who opened a pull request.
#[derive(Debug)]
pub struct Author {
    pub id: String,
    pub is_bot: bool,
    pub login: String,
    pub author_type: String,
    pub url: String,
}

impl Clone for Author {
    fn clone(&self) -> (r: Self)
        ensures
            r == *self,
    {
        Author {
            id: self.id.clone(),
            is_bot: self.is_bot,
            login: self.login.clone(),
            author_type: self.author_type.clone(),
            url: self.url.clone(),
        }
    }
}

/// The repository a pull request belongs to.
#[derive(Debug)]
pub struct Repository {
    pub name: String,
    pub name_with_owner: String,
}

impl Clone for Repository {
    fn clone(&self) -> (r: Self)
        ensures
            r == *self,
    {
        Repository { name: self.name.clone(), name_with_owner: self.name_with_owner.clone() }
    }
}

/// Which search a pull request is attributed to, and whether that search is
/// muted unless the user says otherwise.
#[derive(Debug)]
pub struct Meta {
    pub label: String,
    pub default_mute: bool,
}

impl Clone for Meta {
    fn clone(&self) -> (r: Self)
        ensures
            r == *self,
    {
        Meta { label: self.label.clone(), default_mute: self.default_mute }
    }
}

impl Default for Meta {
    fn default() -> (r: Self)
        ensures
            r.label@ == Seq::<char>::empty(),
            !r.default_mute,
    {
        Meta { label: String::new(), default_mute: false }
    }
}

/// One pull request. Its `url` identifies it from one run to the next.
#[derive(Debug)]
pub struct PullRequest {
    pub author: Author,
    pub body: String,
    pub comments_count: i32,
    pub created_at: Timestamp,
    pub id: String,
    pub number: i32,
    pub repository: Repository,
    pub title: String,
    pub updated_at: Timestamp,
    pub url: String,
    pub state: String,
    pub meta: Meta,
}

impl Clone for PullRequest {
    fn clone(&self) -> (r: Self)
        ensures
            r == *self,
    {
        PullRequest {
            author: self.author.clone(),
            body: self.body.clone(),
            comments_count: self.comments_count,
            created_at: self.created_at,
            id: self.id.clone(),
            number: self.number,
            repository: self.repository.clone(),
            title: self.title.clone(),
            updated_at: self.updated_at,
            url: self.url.clone(),
            state: self.state.clone(),
            meta: self.meta.clone(),
        }
    }
}

/// Whether some item of `prs` has the url `url`.
pub open spec fn url_occurs(prs: Seq<PullRequest>, url: Seq<char>) -> bool {
    exists|k: int| 0 <= k < prs.len() && #[trigger] prs[k].url@ == url
}

/// Whether `i` is the position of the first item of `prs` with the url `url`.
pub open spec fn is_first_with_url(prs: Seq<PullRequest>, url: Seq<char>, i: int) -> bool {
    &&& 0 <= i < prs.len()
    &&& prs[i].url@ == url
    &&& forall|j: int| 0 <= j < i ==> (#[trigger] prs[j]).url@ != url
}

/// The position of the first item of `prs` with the url `url`.
pub open spec fn first_with_url(prs: Seq<PullRequest>, url: Seq<char>) -> int {
    choose|i: int| is_first_with_url(prs, url, i)
}

/// The first position with a url is the only one that is first.
pub proof fn lemma_first_with_url(prs: Seq<PullRequest>, url: Seq<char>, i: int)
    requires
        is_first_with_url(prs, url, i),
    ensures
        first_with_url(prs, url) == i,
{
    let c = first_with_url(prs, url);
    assert(is_first_with_url(prs, url, c));
    if c < i {
        assert(prs[c].url@ != url);
    }
    if i < c {
        assert(prs[i].url@ != url);
    }
}

/// The position of the first pull request with the url `url`, if there is
/// one.
pub fn find_by_url(prs: &Vec<PullRequest>, url: &str) -> (found: Option<usize>)
    ensures
        match found {
            Some(i) => is_first_with_url(prs@, url@, i as int) && i == first_with_url(prs@, url@),
            None => !url_occurs(prs@, url@),
        },
{
    let wanted = url.to_owned();
    let n = prs.len();
    let mut i: usize = 0;
    while i < n
        invariant
            i <= n,
            n == prs@.len(),
            wanted@ == url@,
            forall|j: int| 0 <= j < i ==> (#[trigger] prs@[j]).url@ != url@,
        decreases n - i,
    {
        if prs[i].url == wanted {
            proof {
                lemma_first_with_url(prs@, url@, i as int);
            }
            return Some(i);
        }
        i += 1;
    }
    None
}

/// Whether no url occurs twice in `prs`.
pub open spec fn urls_distinct(prs: Seq<PullRequest>) -> bool {
    forall|i: int, j: int| 0 <= i < j < prs.len() ==> prs[i].url@ != prs[j].url@
}

} // verus!
