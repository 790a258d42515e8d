//! The data the GitHub GraphQL search returns, and the verdicts derived from it.
use crate::text::{chars_of, ends_with, eq_ignore_ascii_case, eq_ignoring_ascii_case, has_suffix, str_eq};
use vstd::prelude::*;

verus! {

/// The envelope of one GraphQL search response.
#[derive(Debug, Clone)]
pub struct GraphQLResponse<T> {
    pub data: Data<T>,
}

/// The `data` member of a GraphQL response.
#[derive(Debug, Clone)]
pub struct Data<T> {
    pub search: Search<T>,
}

/// One page of a search: its records and the signals that say whether it is complete.
#[derive(Debug, Clone)]
pub struct Search<T> {
    pub nodes: Vec<T>,
    /// Total number of matches the search reported, when it reports one.
    pub issue_count: Option<u32>,
    /// Paging state, absent from a response that does not paginate.
    pub page_info: Option<PageInfo>,
}

/// Paging state of a search page.
#[derive(Debug, Clone)]
pub struct PageInfo {
    pub has_next_page: bool,
    pub end_cursor: Option<String>,
}

/// An open pull request.
#[derive(Debug, Clone)]
pub struct PullRequest {
    pub number: u32,
    pub title: String,
    pub url: String,
    pub created_at: String,
    pub author: Option<Author>,
    pub mergeable: String,
    pub is_draft: bool,
    pub repository: Repository,
    pub commits: Commits,
}

#[derive(Debug, Clone)]
pub struct Author {
    pub login: String,
}

#[derive(Debug, Clone)]
pub struct Repository {
    pub name_with_owner: String,
}

#[derive(Debug, Clone)]
pub struct Commits {
    pub nodes: Vec<CommitNode>,
}

#[derive(Debug, Clone)]
pub struct CommitNode {
    pub commit: Commit,
}

#[derive(Debug, Clone)]
pub struct Commit {
    pub status_check_rollup: Option<StatusCheckRollup>,
}

/// The aggregate CI state of one commit, with the individual checks behind it.
#[derive(Debug, Clone)]
pub struct StatusCheckRollup {
    pub state: String,
    pub contexts: Contexts,
}

#[derive(Debug, Clone)]
pub struct Contexts {
    pub nodes: Vec<CheckContext>,
}

/// One check of a rollup: a check run (GitHub Actions and apps) or a commit status.
#[derive(Debug, Clone)]
pub enum CheckContext {
    CheckRun { name: String, conclusion: Option<String>, status: String, details_url: Option<String> },
    StatusContext { context: String, state: String, target_url: Option<String> },
}

/// A recently-merged PR, used to check post-merge CI on the default branch.
///
/// The post-merge workflows are triggered by the push to the default branch, so their
/// check suite attaches to the merge commit, not the PR head commit:
/// `merge_commit.status_check_rollup` is that post-merge status.
#[derive(Debug, Clone)]
pub struct MergedPullRequest {
    pub number: u32,
    pub title: String,
    pub url: String,
    pub merged_at: String,
    pub author: Option<Author>,
    pub repository: Repository,
    pub merge_commit: Option<Commit>,
}

/// The CI verdict for a pull request or a merge commit.
#[derive(Debug, Clone, Copy, PartialEq, Eq, Structural)]
pub enum Verdict {
    /// CI ran and passed.
    Passing,
    /// CI ran and failed.
    Failing,
    /// No verdict yet: still running, not started, absent, or a state this build does not
    /// recognize. Deliberately distinct from `Passing`.
    Unknown,
}

/// Whether a pull request can be merged.
#[derive(Debug, Clone, Copy, PartialEq, Eq, Structural)]
pub enum Mergeability {
    /// GitHub has determined the PR merges cleanly.
    Clean,
    /// GitHub has determined the PR conflicts.
    Conflicting,
    /// Not determined: still being calculated, or a state this build does not recognize.
    /// Deliberately distinct from `Clean`.
    Unknown,
}

/// The more severe of two verdicts: `Failing` beats `Unknown` beats `Passing`.
pub open spec fn worse(a: Verdict, b: Verdict) -> Verdict {
    if a == Verdict::Failing || b == Verdict::Failing {
        Verdict::Failing
    } else if a == Verdict::Unknown || b == Verdict::Unknown {
        Verdict::Unknown
    } else {
        Verdict::Passing
    }
}

impl Verdict {
    /// Combine two verdicts, keeping the more severe: `Failing` beats `Unknown` beats
    /// `Passing`. Used to reduce over several commits or checks without letting one green
    /// result mask a red one.
    pub fn worst(self, other: Verdict) -> (r: Verdict)
        ensures
            r == worse(self, other),
    {
        match (self, other) {
            (Verdict::Failing, _) | (_, Verdict::Failing) => Verdict::Failing,
            (Verdict::Unknown, _) | (_, Verdict::Unknown) => Verdict::Unknown,
            _ => Verdict::Passing,
        }
    }
}

/// Conclusions of a check run that mean it has failed.
pub open spec fn is_failed_conclusion(c: Seq<char>) -> bool {
    ||| c == "FAILURE"@
    ||| c == "TIMED_OUT"@
    ||| c == "CANCELLED"@
    ||| c == "STARTUP_FAILURE"@
    ||| c == "ACTION_REQUIRED"@
}

/// Whether a check has already concluded in failure.
pub open spec fn context_failed(c: CheckContext) -> bool {
    match c {
        CheckContext::CheckRun { conclusion, .. } => match conclusion {
            Some(x) => is_failed_conclusion(x@),
            None => false,
        },
        CheckContext::StatusContext { state, .. } => state@ == "FAILURE"@ || state@ == "ERROR"@,
    }
}

/// Whether any check of `cs` has concluded in failure.
pub open spec fn any_context_failed(cs: Seq<CheckContext>) -> bool {
    exists|i: int| 0 <= i < cs.len() && context_failed(#[trigger] cs[i])
}

/// The verdict of one check-suite rollup.
///
/// An absent rollup, and every aggregate state other than `SUCCESS`, `FAILURE` and
/// `ERROR`, is `Unknown`; a check that has concluded in failure makes the rollup
/// `Failing` whatever its aggregate state.
pub open spec fn rollup_verdict_of(r: Option<StatusCheckRollup>) -> Verdict {
    match r {
        None => Verdict::Unknown,
        Some(r) => if any_context_failed(r.contexts.nodes@) {
            Verdict::Failing
        } else if r.state@ == "SUCCESS"@ {
            Verdict::Passing
        } else if r.state@ == "FAILURE"@ || r.state@ == "ERROR"@ {
            Verdict::Failing
        } else {
            Verdict::Unknown
        },
    }
}

/// The verdicts of a sequence of commits, one per commit.
pub open spec fn commit_verdicts(nodes: Seq<CommitNode>) -> Seq<Verdict> {
    Seq::new(nodes.len(), |i: int| rollup_verdict_of(nodes[i].commit.status_check_rollup))
}

/// The left-to-right reduction of `vs` by [`worse`]; `Unknown` for no verdicts at all.
pub open spec fn reduce_worst(vs: Seq<Verdict>) -> Verdict
    decreases vs.len(),
{
    if vs.len() == 0 {
        Verdict::Unknown
    } else if vs.len() == 1 {
        vs[0]
    } else {
        worse(reduce_worst(vs.drop_last()), vs.last())
    }
}

impl CheckContext {
    /// Whether this individual check has already concluded in failure.
    ///
    /// The conclusion set is wider than the rollup's aggregate state, and it is the
    /// authoritative one: a rollup can still read `PENDING` overall while one of its
    /// checks has already given up.
    pub fn has_failed(&self) -> (r: bool)
        ensures
            r == context_failed(*self),
            (*self matches CheckContext::CheckRun { conclusion: Some(x), .. } && (x@ == "FAILURE"@ || x@
                == "TIMED_OUT"@ || x@ == "CANCELLED"@ || x@ == "STARTUP_FAILURE"@ || x@ == "ACTION_REQUIRED"@))
                ==> r,
            (*self matches CheckContext::CheckRun { conclusion: None, .. }) ==> !r,
            (*self matches CheckContext::StatusContext { state, .. } && (state@ == "FAILURE"@ || state@
                == "ERROR"@)) ==> r,
    {
        proof {
            lemma_failed_checks(*self);
        }
        match self {
            CheckContext::CheckRun { conclusion, .. } => match conclusion {
                Some(c) => {
                    let c = c.as_str();
                    str_eq(c, "FAILURE") || str_eq(c, "TIMED_OUT") || str_eq(c, "CANCELLED")
                        || str_eq(c, "STARTUP_FAILURE") || str_eq(c, "ACTION_REQUIRED")
                },
                None => false,
            },
            CheckContext::StatusContext { state, .. } => str_eq(state.as_str(), "FAILURE")
                || str_eq(state.as_str(), "ERROR"),
        }
    }
}

/// Whether any check of `cs` has concluded in failure.
fn any_failed(cs: &Vec<CheckContext>) -> (r: bool)
    ensures
        r == any_context_failed(cs@),
{
    let mut i: usize = 0;
    while i < cs.len()
        invariant
            i <= cs@.len(),
            forall|k: int| 0 <= k < i ==> !context_failed(#[trigger] cs@[k]),
        decreases cs@.len() - i,
    {
        if cs[i].has_failed() {
            return true;
        }
        i = i + 1;
    }
    false
}

/// Reduce one check-suite rollup to a verdict.
///
/// Every state that is not explicitly `SUCCESS`, `FAILURE` or `ERROR`, and an absent
/// rollup, is `Unknown` rather than passing: the domain is genuinely tri-state.
pub fn rollup_verdict(rollup: Option<&StatusCheckRollup>) -> (r: Verdict)
    ensures
        r == rollup_verdict_of(
            match rollup {
                Some(x) => Some(*x),
                None => None,
            },
        ),
{
    match rollup {
        None => Verdict::Unknown,
        Some(rollup) => {
            if any_failed(&rollup.contexts.nodes) {
                Verdict::Failing
            } else if str_eq(rollup.state.as_str(), "SUCCESS") {
                Verdict::Passing
            } else if str_eq(rollup.state.as_str(), "FAILURE") || str_eq(
                rollup.state.as_str(),
                "ERROR",
            ) {
                Verdict::Failing
            } else {
                Verdict::Unknown
            }
        },
    }
}

impl MergedPullRequest {
    /// The rollup of the merge commit, if there is a merge commit and it has one.
    pub open spec fn merge_rollup_of(&self) -> Option<StatusCheckRollup> {
        match self.merge_commit {
            Some(c) => c.status_check_rollup,
            None => None,
        }
    }

    /// The post-merge verdict.
    pub open spec fn verdict_of(&self) -> Verdict {
        rollup_verdict_of(self.merge_rollup_of())
    }

    pub fn merge_rollup(&self) -> (r: Option<&StatusCheckRollup>)
        ensures
            match r {
                Some(x) => self.merge_rollup_of() == Some(*x),
                None => self.merge_rollup_of() is None,
            },
    {
        match &self.merge_commit {
            Some(c) => match &c.status_check_rollup {
                Some(x) => Some(x),
                None => None,
            },
            None => None,
        }
    }

    pub fn verdict(&self) -> (r: Verdict)
        ensures
            r == self.verdict_of(),
    {
        rollup_verdict(self.merge_rollup())
    }
}

impl PullRequest {
    /// The author's login, or `?` for a deleted account.
    pub open spec fn login_of(&self) -> Seq<char> {
        match self.author {
            Some(a) => a.login@,
            None => "?"@,
        }
    }

    /// The rollup of the first commit node returned, if any.
    pub open spec fn rollup_of(&self) -> Option<StatusCheckRollup> {
        if self.commits.nodes@.len() > 0 {
            self.commits.nodes@[0].commit.status_check_rollup
        } else {
            None
        }
    }

    /// The verdict across every commit node returned.
    pub open spec fn verdict_of(&self) -> Verdict {
        reduce_worst(commit_verdicts(self.commits.nodes@))
    }

    /// Mergeability as a tri-state.
    pub open spec fn mergeability_of(&self) -> Mergeability {
        if self.mergeable@ == "MERGEABLE"@ {
            Mergeability::Clean
        } else if self.mergeable@ == "CONFLICTING"@ {
            Mergeability::Conflicting
        } else {
            Mergeability::Unknown
        }
    }

    /// Whether the PR comes from a dependency bot.
    pub open spec fn is_bot_of(&self) -> bool {
        let login = self.login_of();
        ||| has_suffix(login, "[bot]"@)
        ||| eq_ignoring_ascii_case(login, "renovate"@)
        ||| eq_ignoring_ascii_case(login, "dependabot"@)
        ||| eq_ignoring_ascii_case(login, "mend"@)
    }

    pub fn author_login(&self) -> (r: &str)
        ensures
            r@ == self.login_of(),
    {
        match &self.author {
            Some(a) => a.login.as_str(),
            None => "?",
        }
    }

    pub fn rollup(&self) -> (r: Option<&StatusCheckRollup>)
        ensures
            match r {
                Some(x) => self.rollup_of() == Some(*x),
                None => self.rollup_of() is None,
            },
    {
        if self.commits.nodes.len() == 0 {
            return None;
        }
        match &self.commits.nodes[0].commit.status_check_rollup {
            Some(x) => Some(x),
            None => None,
        }
    }

    /// The verdict across every commit node the API actually returned.
    ///
    /// Reading a single node is what let a pushed commit with no checks yet hide a real
    /// `FAILURE` on the commit behind it. Reducing over every node returned, worst-first,
    /// removes that lever.
    pub fn verdict(&self) -> (r: Verdict)
        ensures
            r == self.verdict_of(),
    {
        let nodes = &self.commits.nodes;
        let ghost vs = commit_verdicts(nodes@);
        if nodes.len() == 0 {
            return Verdict::Unknown;
        }
        let mut acc = rollup_verdict(option_ref(&nodes[0].commit.status_check_rollup));
        let mut i: usize = 1;
        assert(vs.take(1).drop_last() =~= vs.take(0));
        while i < nodes.len()
            invariant
                1 <= i <= nodes@.len(),
                vs == commit_verdicts(nodes@),
                acc == reduce_worst(vs.take(i as int)),
            decreases nodes@.len() - i,
        {
            let v = rollup_verdict(option_ref(&nodes[i].commit.status_check_rollup));
            acc = acc.worst(v);
            assert(vs.take(i + 1).drop_last() =~= vs.take(i as int));
            i = i + 1;
        }
        assert(vs.take(nodes@.len() as int) =~= vs);
        acc
    }

    pub fn is_failing(&self) -> (r: bool)
        ensures
            r == (self.verdict_of() == Verdict::Failing),
    {
        self.verdict() == Verdict::Failing
    }

    /// Mergeability as a tri-state.
    ///
    /// `UNKNOWN` means GitHub is still calculating, not that the PR merges cleanly, and
    /// nothing here re-queries, so it is not folded into "clean". Unrecognized future
    /// members resolve the same way.
    pub fn mergeability(&self) -> (r: Mergeability)
        ensures
            r == self.mergeability_of(),
    {
        if str_eq(self.mergeable.as_str(), "MERGEABLE") {
            Mergeability::Clean
        } else if str_eq(self.mergeable.as_str(), "CONFLICTING") {
            Mergeability::Conflicting
        } else {
            Mergeability::Unknown
        }
    }

    pub fn is_bot(&self) -> (r: bool)
        ensures
            r == self.is_bot_of(),
    {
        let login = chars_of(self.author_login());
        ends_with(&login, "[bot]") || eq_ignore_ascii_case(&login, "renovate")
            || eq_ignore_ascii_case(&login, "dependabot") || eq_ignore_ascii_case(&login, "mend")
    }
}

/// `worst` is commutative: the order in which two verdicts are combined does not matter.
pub proof fn lemma_worst_commutative(a: Verdict, b: Verdict)
    ensures
        worse(a, b) == worse(b, a),
{
}

/// `worst` is associative, so reducing over commits in any grouping gives one answer.
pub proof fn lemma_worst_associative(a: Verdict, b: Verdict, c: Verdict)
    ensures
        worse(worse(a, b), c) == worse(a, worse(b, c)),
{
}

/// `worst` is idempotent, `Passing` is its identity and `Failing` absorbs everything:
/// one green result can never mask a red one.
pub proof fn lemma_worst_identity_absorbing(a: Verdict)
    ensures
        worse(a, a) == a,
        worse(a, Verdict::Passing) == a,
        worse(a, Verdict::Failing) == Verdict::Failing,
        worse(Verdict::Failing, a) == Verdict::Failing,
{
}

/// The reduction of a sequence of verdicts is `Failing` exactly when one of them is
/// `Failing`, and `Passing` exactly when there is at least one and all of them are
/// `Passing`; otherwise it is `Unknown`.
pub proof fn lemma_reduce_worst_characterization(vs: Seq<Verdict>)
    ensures
        (reduce_worst(vs) == Verdict::Failing) <==> (exists|i: int|
            0 <= i < vs.len() && #[trigger] vs[i] == Verdict::Failing),
        (reduce_worst(vs) == Verdict::Passing) <==> (vs.len() > 0 && forall|i: int|
            0 <= i < vs.len() ==> #[trigger] vs[i] == Verdict::Passing),
    decreases vs.len(),
{
    if vs.len() > 1 {
        let init = vs.drop_last();
        lemma_reduce_worst_characterization(init);
        assert(forall|i: int| 0 <= i < init.len() ==> #[trigger] init[i] == vs[i]);
        if reduce_worst(vs) == Verdict::Failing {
            if vs.last() != Verdict::Failing {
                let i = choose|i: int| 0 <= i < init.len() && #[trigger] init[i] == Verdict::Failing;
                assert(vs[i] == Verdict::Failing);
            }
        }
        if exists|i: int| 0 <= i < vs.len() && #[trigger] vs[i] == Verdict::Failing {
            let i = choose|i: int| 0 <= i < vs.len() && #[trigger] vs[i] == Verdict::Failing;
            if i < vs.len() - 1 {
                assert(init[i] == Verdict::Failing);
            }
        }
        if forall|i: int| 0 <= i < vs.len() ==> #[trigger] vs[i] == Verdict::Passing {
            assert(vs[vs.len() - 1] == Verdict::Passing);
            assert forall|i: int| 0 <= i < init.len() implies #[trigger] init[i]
                == Verdict::Passing by {
                assert(vs[i] == Verdict::Passing);
            }
        }
        if reduce_worst(vs) == Verdict::Passing {
            assert forall|i: int| 0 <= i < vs.len() implies #[trigger] vs[i]
                == Verdict::Passing by {
                if i < vs.len() - 1 {
                    assert(init[i] == Verdict::Passing);
                }
            }
        }
    }
}

/// A pull request's verdict is `Failing` exactly when the rollup of some returned commit
/// is `Failing`, whatever the other commits say; it is `Passing` exactly when at least
/// one commit was returned and every returned commit's rollup is `Passing`. So a newer
/// commit with no checks cannot hide a failure behind it, and no commit at all, or a
/// commit without a rollup, never reads as passing.
pub proof fn lemma_pr_verdict_characterization(pr: PullRequest)
    ensures
        (pr.verdict_of() == Verdict::Failing) <==> (exists|i: int|
            0 <= i < pr.commits.nodes@.len() && rollup_verdict_of(
                #[trigger] pr.commits.nodes@[i].commit.status_check_rollup,
            ) == Verdict::Failing),
        (pr.verdict_of() == Verdict::Passing) <==> (pr.commits.nodes@.len() > 0 && forall|i: int|
            0 <= i < pr.commits.nodes@.len() ==> rollup_verdict_of(
                #[trigger] pr.commits.nodes@[i].commit.status_check_rollup,
            ) == Verdict::Passing),
{
    let vs = commit_verdicts(pr.commits.nodes@);
    lemma_reduce_worst_characterization(vs);
    assert(forall|i: int|
        0 <= i < vs.len() ==> #[trigger] vs[i] == rollup_verdict_of(
            pr.commits.nodes@[i].commit.status_check_rollup,
        ));
    if exists|i: int|
        0 <= i < pr.commits.nodes@.len() && rollup_verdict_of(
            #[trigger] pr.commits.nodes@[i].commit.status_check_rollup,
        ) == Verdict::Failing {
        let i = choose|i: int|
            0 <= i < pr.commits.nodes@.len() && rollup_verdict_of(
                #[trigger] pr.commits.nodes@[i].commit.status_check_rollup,
            ) == Verdict::Failing;
        assert(vs[i] == Verdict::Failing);
    }
    if forall|i: int|
        0 <= i < pr.commits.nodes@.len() ==> rollup_verdict_of(
            #[trigger] pr.commits.nodes@[i].commit.status_check_rollup,
        ) == Verdict::Passing {
        assert forall|i: int| 0 <= i < vs.len() implies #[trigger] vs[i]
            == Verdict::Passing by {
            assert(rollup_verdict_of(pr.commits.nodes@[i].commit.status_check_rollup)
                == Verdict::Passing);
        }
    }
    if pr.verdict_of() == Verdict::Passing {
        assert forall|i: int| 0 <= i < pr.commits.nodes@.len() implies rollup_verdict_of(
            #[trigger] pr.commits.nodes@[i].commit.status_check_rollup,
        ) == Verdict::Passing by {
            assert(vs[i] == Verdict::Passing);
        }
    }
}

/// A rollup is `Passing` only when its aggregate state is `SUCCESS` and none of its
/// checks has concluded in failure; an absent rollup is never `Passing`; a check that
/// concluded in failure makes the rollup `Failing` whatever the aggregate says.
pub proof fn lemma_rollup_passing_needs_success(r: Option<StatusCheckRollup>)
    ensures
        rollup_verdict_of(r) == Verdict::Passing <==> (r matches Some(x) && x.state@ == "SUCCESS"@
            && !any_context_failed(x.contexts.nodes@)),
        r is None ==> rollup_verdict_of(r) == Verdict::Unknown,
        (r matches Some(x) && any_context_failed(x.contexts.nodes@)) ==> rollup_verdict_of(r)
            == Verdict::Failing,
{
}

/// Which checks have failed: a check run that concluded `FAILURE`, `TIMED_OUT`,
/// `CANCELLED`, `STARTUP_FAILURE` or `ACTION_REQUIRED`, and a commit status in state
/// `FAILURE` or `ERROR`. A check run with no conclusion yet, or any other conclusion
/// (`SUCCESS`, `NEUTRAL`, `SKIPPED`, ...), has not failed.
pub proof fn lemma_failed_checks(c: CheckContext)
    ensures
        (c matches CheckContext::CheckRun { conclusion: Some(x), .. } && (x@ == "FAILURE"@ || x@ == "TIMED_OUT"@
            || x@ == "CANCELLED"@ || x@ == "STARTUP_FAILURE"@ || x@ == "ACTION_REQUIRED"@)) ==> context_failed(c),
        (c matches CheckContext::CheckRun { conclusion: None, .. }) ==> !context_failed(c),
        (c matches CheckContext::CheckRun { conclusion: Some(x), .. } && (x@ == "SUCCESS"@ || x@ == "NEUTRAL"@
            || x@ == "SKIPPED"@ || x@ == "STALE"@)) ==> !context_failed(c),
        (c matches CheckContext::StatusContext { state, .. } && (state@ == "FAILURE"@ || state@ == "ERROR"@))
            ==> context_failed(c),
        (c matches CheckContext::StatusContext { state, .. } && (state@ == "SUCCESS"@ || state@ == "PENDING"@
            || state@ == "EXPECTED"@)) ==> !context_failed(c),
{
    reveal_strlit("FAILURE");
    reveal_strlit("TIMED_OUT");
    reveal_strlit("CANCELLED");
    reveal_strlit("STARTUP_FAILURE");
    reveal_strlit("ACTION_REQUIRED");
    reveal_strlit("SUCCESS");
    reveal_strlit("NEUTRAL");
    reveal_strlit("SKIPPED");
    reveal_strlit("STALE");
    reveal_strlit("ERROR");
    reveal_strlit("PENDING");
    reveal_strlit("EXPECTED");
    assert("FAILURE"@.len() == 7 && "FAILURE"@[0] == 'F');
    assert("TIMED_OUT"@.len() == 9 && "TIMED_OUT"@[0] == 'T');
    assert("CANCELLED"@.len() == 9 && "CANCELLED"@[0] == 'C');
    assert("STARTUP_FAILURE"@.len() == 15 && "STARTUP_FAILURE"@[0] == 'S');
    assert("ACTION_REQUIRED"@.len() == 15 && "ACTION_REQUIRED"@[0] == 'A');
    assert("SUCCESS"@.len() == 7 && "SUCCESS"@[0] == 'S');
    assert("NEUTRAL"@.len() == 7 && "NEUTRAL"@[0] == 'N');
    assert("SKIPPED"@.len() == 7 && "SKIPPED"@[0] == 'S');
    assert("STALE"@.len() == 5 && "STALE"@[0] == 'S');
    assert("ERROR"@.len() == 5 && "ERROR"@[0] == 'E');
    assert("PENDING"@.len() == 7 && "PENDING"@[0] == 'P');
    assert("EXPECTED"@.len() == 8 && "EXPECTED"@[0] == 'E');
}

/// One failed check makes its rollup `Failing`, whatever the rollup's aggregate state
/// (a rollup can still read `PENDING` while one of its checks has already failed), and
/// so makes `Failing` every pull request that returned a commit with that rollup.
pub proof fn lemma_failed_check_fails_pr(pr: PullRequest, i: int, k: int)
    requires
        0 <= i < pr.commits.nodes@.len(),
        ({
            let r = pr.commits.nodes@[i].commit.status_check_rollup;
            &&& r is Some
            &&& 0 <= k < r->0.contexts.nodes@.len()
            &&& context_failed(r->0.contexts.nodes@[k])
        }),
    ensures
        rollup_verdict_of(pr.commits.nodes@[i].commit.status_check_rollup) == Verdict::Failing,
        pr.verdict_of() == Verdict::Failing,
{
    lemma_pr_verdict_characterization(pr);
}

/// A pull request returned with a commit whose rollup holds a check run that concluded
/// `FAILURE` is failing, whatever that rollup's aggregate state.
pub proof fn lemma_failure_conclusion_fails_pr(pr: PullRequest, i: int, k: int)
    requires
        0 <= i < pr.commits.nodes@.len(),
        ({
            let r = pr.commits.nodes@[i].commit.status_check_rollup;
            &&& r is Some
            &&& 0 <= k < r->0.contexts.nodes@.len()
            &&& r->0.contexts.nodes@[k] matches CheckContext::CheckRun { conclusion: Some(x), .. }
            &&& x@ == "FAILURE"@
        }),
    ensures
        pr.verdict_of() == Verdict::Failing,
{
    let r = pr.commits.nodes@[i].commit.status_check_rollup->0;
    lemma_failed_checks(r.contexts.nodes@[k]);
    lemma_failed_check_fails_pr(pr, i, k);
}

/// What a rollup's aggregate state means when none of its checks has failed: `SUCCESS`
/// is `Passing`; `FAILURE` and `ERROR` are `Failing`; `PENDING`, `EXPECTED` and every
/// other state are `Unknown`, never `Passing`.
pub proof fn lemma_rollup_states(r: StatusCheckRollup)
    requires
        !any_context_failed(r.contexts.nodes@),
    ensures
        r.state@ == "SUCCESS"@ ==> rollup_verdict_of(Some(r)) == Verdict::Passing,
        r.state@ == "FAILURE"@ || r.state@ == "ERROR"@ ==> rollup_verdict_of(Some(r)) == Verdict::Failing,
        r.state@ == "PENDING"@ || r.state@ == "EXPECTED"@ ==> rollup_verdict_of(Some(r)) == Verdict::Unknown,
        r.state@ != "SUCCESS"@ ==> rollup_verdict_of(Some(r)) != Verdict::Passing,
{
    reveal_strlit("SUCCESS");
    reveal_strlit("FAILURE");
    reveal_strlit("ERROR");
    reveal_strlit("PENDING");
    reveal_strlit("EXPECTED");
    assert("SUCCESS"@.len() == 7 && "SUCCESS"@[0] == 'S');
    assert("FAILURE"@.len() == 7 && "FAILURE"@[0] == 'F');
    assert("ERROR"@.len() == 5 && "ERROR"@[0] == 'E');
    assert("PENDING"@.len() == 7 && "PENDING"@[0] == 'P');
    assert("EXPECTED"@.len() == 8 && "EXPECTED"@[0] == 'E');
}

/// Mergeability: `MERGEABLE` is clean, `CONFLICTING` conflicts, and anything else
/// (`UNKNOWN` while GitHub is still computing, or a state not known here) is neither.
pub proof fn lemma_mergeability_states(pr: PullRequest)
    ensures
        pr.mergeability_of() == Mergeability::Clean <==> pr.mergeable@ == "MERGEABLE"@,
        pr.mergeability_of() == Mergeability::Conflicting <==> pr.mergeable@ == "CONFLICTING"@,
{
    reveal_strlit("MERGEABLE");
    reveal_strlit("CONFLICTING");
    assert("MERGEABLE"@.len() != "CONFLICTING"@.len());
}

/// A shared reference to the content of an `Option`.
pub fn option_ref<T>(o: &Option<T>) -> (r: Option<&T>)
    ensures
        match r {
            Some(x) => *o == Some(*x),
            None => o is None,
        },
{
    match o {
        Some(x) => Some(x),
        None => None,
    }
}

} // verus!
