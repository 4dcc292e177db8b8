//! What the user configures: the searches to run, the order in which their
//! names win a shared pull request, the order in which they are shown, and
//! the rules applied before a summary is made.

use vstd::prelude::*;
use vstd::string::StringExecFns;
use crate::error::Error;
use crate::storage::Loaded;
use crate::util::views;

verus! {

/// One named search.
#[derive(Debug)]
pub struct Query {
    /// The filter handed to the tracker's search command.
    pub github_arg: String,
    /// The name under which results are attributed and ordered.
    pub query_name: String,
    /// The short code shown beside a pull request.
    pub short_name: String,
    /// Whether results of this search are muted unless the user says otherwise.
    pub mute: bool,
}

impl Clone for Query {
    fn clone(&self) -> (r: Self)
        ensures
            r == *self,
    {
        Query {
            github_arg: self.github_arg.clone(),
            query_name: self.query_name.clone(),
            short_name: self.short_name.clone(),
            mute: self.mute,
        }
    }
}

/// A condition on a pull request. An empty `title` asks nothing.
#[derive(Debug)]
pub struct Match {
    pub title: String,
}

/// A rule: where any of `matches` holds of a pull request, and `mute` is set,
/// the pull request becomes muted by default.
#[derive(Debug)]
pub struct Action {
    pub matches: Vec<Match>,
    pub mute: bool,
}

/// The whole configuration.
#[derive(Debug)]
pub struct Config {
    pub queries: Vec<Query>,
    pub attribution_order: Vec<String>,
    pub display_order: Vec<String>,
    pub annotations: Vec<String>,
    pub compact_format: String,
    pub actions: Vec<Action>,
}

/// The configuration that is used where the user has written none.
pub const DEFAULT_YAML: &'static str = r#"
queries:
  - github_arg: "--assignee=@me"
    query_name: "Assignee"
    short_name: "a"
  - github_arg: "--author=@me"
    query_name: "Author"
    short_name: "*"
  - github_arg: "--mentions=@me"
    query_name: "Mentions"
    short_name: "m"
    mute: true
  - github_arg: "--review-requested=@me"
    query_name: "ReviewRequested"
    short_name: "r"
attribution_order:
  - "Assignee"
  - "Author"
  - "Mentions"
  - "ReviewRequested"
display_order:
  - "Mentions"
  - "ReviewRequested"
  - "Assignee"
  - "Author"
annotations:
  - Approved
"#;

/// A search with the given filter, name and short code.
fn query(github_arg: &str, query_name: &str, short_name: &str, mute: bool) -> (q: Query)
    ensures
        q.github_arg@ == github_arg@,
        q.query_name@ == query_name@,
        q.short_name@ == short_name@,
        q.mute == mute,
{
    Query {
        github_arg: github_arg.to_owned(),
        query_name: query_name.to_owned(),
        short_name: short_name.to_owned(),
        mute,
    }
}

/// The names `a`, `b`, `c` and `d`, in this order.
fn names(a: &str, b: &str, c: &str, d: &str) -> (list: Vec<String>)
    ensures
        views(list@) == seq![a@, b@, c@, d@],
{
    let mut list: Vec<String> = Vec::new();
    list.push(a.to_owned());
    list.push(b.to_owned());
    list.push(c.to_owned());
    list.push(d.to_owned());
    assert(views(list@) =~= seq![a@, b@, c@, d@]);
    list
}

impl Config {
    /// What `DEFAULT_YAML` says of the search at position `i`: its
    /// filter, its name, its short code, and whether it is muted.
    pub open spec fn embedded_query(i: int) -> (Seq<char>, Seq<char>, Seq<char>, bool) {
        if i == 0 {
            ("--assignee=@me"@, "Assignee"@, "a"@, false)
        } else if i == 1 {
            ("--author=@me"@, "Author"@, "*"@, false)
        } else if i == 2 {
            ("--mentions=@me"@, "Mentions"@, "m"@, true)
        } else {
            ("--review-requested=@me"@, "ReviewRequested"@, "r"@, false)
        }
    }

    /// Whether `self` says what `DEFAULT_YAML` says.
    pub open spec fn is_embedded(self) -> bool {
        &&& self.queries@.len() == 4
        &&& forall|i: int|
            0 <= i < 4 ==> (
                (#[trigger] self.queries@[i]).github_arg@,
                self.queries@[i].query_name@,
                self.queries@[i].short_name@,
                self.queries@[i].mute,
            ) == Config::embedded_query(i)
        &&& views(self.attribution_order@) == seq![
            "Assignee"@,
            "Author"@,
            "Mentions"@,
            "ReviewRequested"@,
        ]
        &&& views(self.display_order@) == seq![
            "Mentions"@,
            "ReviewRequested"@,
            "Assignee"@,
            "Author"@,
        ]
        &&& views(self.annotations@) == seq!["Approved"@]
        &&& self.compact_format@.len() == 0
        &&& self.actions@.len() == 0
    }

    /// The default configuration, as `DEFAULT_YAML` gives it.
    pub fn embedded() -> (config: Config)
        ensures
            config.is_embedded(),
    {
        let mut queries: Vec<Query> = Vec::new();
        queries.push(query("--assignee=@me", "Assignee", "a", false));
        queries.push(query("--author=@me", "Author", "*", false));
        queries.push(query("--mentions=@me", "Mentions", "m", true));
        queries.push(query("--review-requested=@me", "ReviewRequested", "r", false));
        let mut annotations: Vec<String> = Vec::new();
        annotations.push(String::from_str("Approved"));
        assert(views(annotations@) =~= seq!["Approved"@]);
        Config {
            queries,
            attribution_order: names("Assignee", "Author", "Mentions", "ReviewRequested"),
            display_order: names("Mentions", "ReviewRequested", "Assignee", "Author"),
            annotations,
            compact_format: String::new(),
            actions: Vec::new(),
        }
    }

    /// The configuration to work with, and what there is to warn of: the
    /// one that was read; the default one where there is none; and the
    /// default one, with a warning, where what was written cannot be read.
    pub fn from_loaded(loaded: Loaded<Config>) -> (resolved: (Config, Option<Error>))
        ensures
            match loaded {
                Loaded::Missing => resolved.0.is_embedded() && resolved.1 is None,
                Loaded::Unreadable => resolved.0.is_embedded() && resolved.1 == Some(
                    Error::ConfigInvalid,
                ),
                Loaded::Decoded(config) => resolved.0 == config && resolved.1 is None,
            },
    {
        match loaded {
            Loaded::Missing => (Config::embedded(), None),
            Loaded::Unreadable => (Config::embedded(), Some(Error::ConfigInvalid)),
            Loaded::Decoded(config) => (config, None),
        }
    }

    /// The text of the default configuration.
    pub fn default_yaml() -> (yaml: &'static str)
        ensures
            yaml@ == DEFAULT_YAML@,
    {
        DEFAULT_YAML
    }

    /// Whether no two searches share a name.
    pub open spec fn names_unique(self) -> bool {
        forall|i: int, j: int|
            0 <= i < j < self.queries@.len() ==> self.queries@[i].query_name@
                != self.queries@[j].query_name@
    }

    /// Whether no two searches share a name, as a configuration should have
    /// it: results are attributed and ordered by the names.
    pub fn has_unique_names(&self) -> (unique: bool)
        ensures
            unique == self.names_unique(),
    {
        let n = self.queries.len();
        let mut j: usize = 0;
        while j < n
            invariant
                j <= n,
                n == self.queries@.len(),
                forall|a: int, b: int|
                    0 <= a < b < j ==> self.queries@[a].query_name@ != self.queries@[b].query_name@,
            decreases n - j,
        {
            let mut i: usize = 0;
            while i < j
                invariant
                    i <= j,
                    j < n,
                    n == self.queries@.len(),
                    forall|a: int|
                        0 <= a < i ==> self.queries@[a].query_name@
                            != self.queries@[j as int].query_name@,
                decreases j - i,
            {
                if self.queries[i].query_name == self.queries[j].query_name {
                    return false;
                }
                i += 1;
            }
            j += 1;
        }
        true
    }
}

impl Default for Config {
    /// A configuration with no searches and no preferences.
    fn default() -> (r: Self)
        ensures
            r.queries@.len() == 0,
            r.attribution_order@.len() == 0,
            r.display_order@.len() == 0,
            r.annotations@.len() == 0,
            r.compact_format@.len() == 0,
            r.actions@.len() == 0,
    {
        Config {
            queries: Vec::new(),
            attribution_order: Vec::new(),
            display_order: Vec::new(),
            annotations: Vec::new(),
            compact_format: String::new(),
            actions: Vec::new(),
        }
    }
}

} // verus!
