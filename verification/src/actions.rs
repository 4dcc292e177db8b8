//! The rules of the configuration, applied to pull requests before a
//! summary is made.

use vstd::prelude::*;
use crate::config::{Action, Config, Match};
use crate::gh::{Meta, PullRequest};
use crate::text::{contains_text, occurs_in};

verus! {

/// Whether the condition `m` holds of `pr`: it asks for no title, or the
/// title of `pr` contains the one it asks for.
pub open spec fn matches(m: Match, pr: PullRequest) -> bool {
    m.title@.len() == 0 || occurs_in(pr.title@, m.title@)
}

/// Whether some condition of `action` holds of `pr`.
pub open spec fn fires(action: Action, pr: PullRequest) -> bool {
    exists|k: int| 0 <= k < action.matches@.len() && matches(#[trigger] action.matches@[k], pr)
}

/// `pr`, muted by default where `mute` holds, and as it is otherwise.
pub open spec fn muted_if(pr: PullRequest, mute: bool) -> PullRequest {
    if mute {
        PullRequest { meta: Meta { default_mute: true, ..pr.meta }, ..pr }
    } else {
        pr
    }
}

/// Whether some rule of `actions` before position `upto` mutes `pr`.
pub open spec fn muted_by(actions: Seq<Action>, pr: PullRequest, upto: int) -> bool {
    exists|a: int|
        0 <= a < upto && a < actions.len() && (#[trigger] actions[a]).mute && fires(
            actions[a],
            pr,
        )
}

/// Whether all that `m` asks holds of `pr`.
pub fn is_match(m: &Match, pr: &PullRequest) -> (r: bool)
    ensures
        r == matches(*m, *pr),
{
    if !m.title.as_str().is_empty() {
        if !contains_text(pr.title.as_str(), m.title.as_str()) {
            return false;
        }
    }
    true
}

impl Action {
    /// Applies the rule to `pr`: where one of its conditions holds and the
    /// rule mutes, the pull request comes back muted by default; otherwise
    /// it comes back as it is. No rule removes a pull request.
    pub fn act(&self, pr: &PullRequest) -> (out: Option<PullRequest>)
        ensures
            out == Some(muted_if(*pr, self.mute && fires(*self, *pr))),
    {
        let mut pr = pr.clone();
        let n = self.matches.len();
        let mut any = false;
        let mut k: usize = 0;
        while k < n && !any
            invariant
                k <= n,
                n == self.matches@.len(),
                any ==> fires(*self, pr),
                !any ==> forall|j: int| 0 <= j < k ==> !matches(#[trigger] self.matches@[j], pr),
            decreases n - k + (if any { 0int } else { 1int }),
        {
            if is_match(&self.matches[k], &pr) {
                any = true;
            } else {
                k += 1;
            }
        }
        if !any {
            return Some(pr);
        }
        if self.mute {
            pr.meta.default_mute = true;
        }
        Some(pr)
    }
}

/// Applies every rule of `config` to every pull request of `prs`: a pull
/// request that some muting rule matches comes out muted by default, the
/// others come out as they are, all in their order.
pub fn apply_actions(config: &Config, prs: &Vec<PullRequest>) -> (out: Vec<PullRequest>)
    ensures
        out@.len() == prs@.len(),
        forall|i: int|
            0 <= i < prs@.len() ==> #[trigger] out@[i] == muted_if(
                prs@[i],
                muted_by(config.actions@, prs@[i], config.actions@.len() as int),
            ),
{
    let mut out: Vec<PullRequest> = Vec::new();
    let n = prs.len();
    let count = config.actions.len();
    let mut i: usize = 0;
    while i < n
        invariant
            i <= n,
            n == prs@.len(),
            count == config.actions@.len(),
            out@.len() == i,
            forall|j: int|
                0 <= j < i ==> #[trigger] out@[j] == muted_if(
                    prs@[j],
                    muted_by(config.actions@, prs@[j], count as int),
                ),
        decreases n - i,
    {
        let mut current = Some(prs[i].clone());
        let mut a: usize = 0;
        while a < count
            invariant
                a <= count,
                count == config.actions@.len(),
                i < n,
                n == prs@.len(),
                current == Some(
                    muted_if(prs@[i as int], muted_by(config.actions@, prs@[i as int], a as int)),
                ),
            decreases count - a,
        {
            let ghost before = muted_by(config.actions@, prs@[i as int], a as int);
            let ghost given = prs@[i as int];
            current = match current {
                Some(ref pr) => {
                    proof {
                        let action = config.actions@[a as int];
                        assert(fires(action, *pr) == fires(action, given)) by {
                            assert(forall|m: Match| matches(m, *pr) == matches(m, given));
                        }
                        if action.mute && fires(action, given) {
                            assert(muted_by(config.actions@, given, a + 1));
                        } else if before {
                            assert(muted_by(config.actions@, given, a + 1));
                        } else {
                            assert(!muted_by(config.actions@, given, a + 1));
                        }
                    }
                    config.actions[a].act(pr)
                },
                None => None,
            };
            a += 1;
        }
        if let Some(pr) = current {
            out.push(pr);
        }
        i += 1;
    }
    out
}

} // verus!
