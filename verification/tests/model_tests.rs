use ghcheck::model::{
    CheckContext, Commit, CommitNode, Commits, Contexts, Mergeability, MergedPullRequest,
    PullRequest, Repository, StatusCheckRollup, Verdict,
};

fn rollup(state: &str) -> Option<StatusCheckRollup> {
    Some(StatusCheckRollup {
        state: state.to_string(),
        contexts: Contexts { nodes: vec![] },
    })
}

fn pr_with_commits(rollups: Vec<Option<StatusCheckRollup>>) -> PullRequest {
    PullRequest {
        number: 1,
        title: "t".to_string(),
        url: "u".to_string(),
        created_at: "2026-06-20T10:00:00Z".to_string(),
        author: None,
        mergeable: "MERGEABLE".to_string(),
        is_draft: false,
        repository: Repository {
            name_with_owner: "o/r".to_string(),
        },
        commits: Commits {
            nodes: rollups
                .into_iter()
                .map(|r| CommitNode {
                    commit: Commit {
                        status_check_rollup: r,
                    },
                })
                .collect(),
        },
    }
}

#[test]
fn a_failure_on_any_returned_commit_is_reported() {
    let pr = pr_with_commits(vec![None, rollup("FAILURE")]);
    assert!(
        pr.is_failing(),
        "FAILURE on a returned commit was not reported"
    );
}

#[test]
fn a_null_rollup_is_not_treated_as_passing() {
    let pr = pr_with_commits(vec![None]);
    assert_ne!(
        pr.verdict(),
        Verdict::Passing,
        "absent verdict aliased onto passing"
    );
}

#[test]
fn an_unrecognized_state_is_not_treated_as_passing() {
    let pr = pr_with_commits(vec![rollup("SOME_NEW_STATE")]);
    assert_ne!(pr.verdict(), Verdict::Passing);
}

#[test]
fn pending_is_unknown_not_passing_and_not_failing() {
    let pr = pr_with_commits(vec![rollup("PENDING")]);
    assert_eq!(pr.verdict(), Verdict::Unknown);
    assert!(
        !pr.is_failing(),
        "PENDING must not be reported as a failure"
    );
}

fn pr_mergeable(state: &str) -> PullRequest {
    let mut pr = pr_with_commits(vec![rollup("SUCCESS")]);
    pr.mergeable = state.to_string();
    pr
}

#[test]
fn unknown_mergeability_is_not_treated_as_clean() {
    assert_eq!(
        pr_mergeable("UNKNOWN").mergeability(),
        Mergeability::Unknown
    );
}

#[test]
fn an_unrecognized_mergeable_state_is_not_treated_as_clean() {
    assert_eq!(
        pr_mergeable("SOME_NEW_STATE").mergeability(),
        Mergeability::Unknown
    );
}

#[test]
fn known_mergeable_states_map_directly() {
    assert_eq!(
        pr_mergeable("MERGEABLE").mergeability(),
        Mergeability::Clean
    );
    assert_eq!(
        pr_mergeable("CONFLICTING").mergeability(),
        Mergeability::Conflicting
    );
}

#[test]
fn success_is_passing() {
    assert_eq!(
        pr_with_commits(vec![rollup("SUCCESS")]).verdict(),
        Verdict::Passing
    );
}

#[test]
fn a_concluded_failed_context_outranks_a_non_failure_aggregate() {
    let pr = PullRequest {
        commits: Commits {
            nodes: vec![CommitNode {
                commit: Commit {
                    status_check_rollup: Some(StatusCheckRollup {
                        state: "PENDING".to_string(),
                        contexts: Contexts {
                            nodes: vec![CheckContext::CheckRun {
                                name: "build".to_string(),
                                conclusion: Some("TIMED_OUT".to_string()),
                                status: "COMPLETED".to_string(),
                                details_url: None,
                            }],
                        },
                    }),
                },
            }],
        },
        ..pr_with_commits(vec![])
    };
    assert_eq!(pr.verdict(), Verdict::Failing);
}

#[test]
fn merged_pr_null_rollup_is_not_passing() {
    let m = MergedPullRequest {
        number: 1,
        title: "t".to_string(),
        url: "u".to_string(),
        merged_at: "2026-06-20T10:00:00Z".to_string(),
        author: None,
        repository: Repository {
            name_with_owner: "o/r".to_string(),
        },
        merge_commit: None,
    };
    assert_eq!(m.verdict(), Verdict::Unknown);
}

// ---- further cases ----

fn author(login: &str) -> PullRequest {
    let mut pr = pr_with_commits(vec![rollup("SUCCESS")]);
    pr.author = Some(ghcheck::model::Author {
        login: login.to_string(),
    });
    pr
}

#[test]
fn bot_logins_are_recognized() {
    assert!(author("renovate[bot]").is_bot());
    assert!(author("Renovate").is_bot());
    assert!(author("DEPENDABOT").is_bot());
    assert!(author("mend").is_bot());
    assert!(!author("octocat").is_bot());
    assert!(!author("renovate-fan").is_bot());
    assert!(!pr_with_commits(vec![]).is_bot());
}

#[test]
fn author_login_falls_back_to_question_mark() {
    assert_eq!(pr_with_commits(vec![]).author_login(), "?");
    assert_eq!(author("octocat").author_login(), "octocat");
}

#[test]
fn worst_orders_failing_over_unknown_over_passing() {
    let (p, u, f) = (Verdict::Passing, Verdict::Unknown, Verdict::Failing);
    for (a, b, w) in [
        (p, p, p),
        (p, u, u),
        (u, p, u),
        (u, f, f),
        (f, p, f),
        (u, u, u),
    ] {
        assert_eq!(a.worst(b), w);
    }
}

#[test]
fn a_green_commit_does_not_mask_a_red_one() {
    let pr = pr_with_commits(vec![rollup("FAILURE"), rollup("SUCCESS")]);
    assert_eq!(pr.verdict(), Verdict::Failing);
    let pr = pr_with_commits(vec![rollup("SUCCESS"), rollup("SUCCESS")]);
    assert_eq!(pr.verdict(), Verdict::Passing);
    let pr = pr_with_commits(vec![rollup("SUCCESS"), None]);
    assert_eq!(pr.verdict(), Verdict::Unknown);
    assert_eq!(pr_with_commits(vec![]).verdict(), Verdict::Unknown);
}

#[test]
fn error_state_and_status_context_failures_fail() {
    assert_eq!(pr_with_commits(vec![rollup("ERROR")]).verdict(), Verdict::Failing);
    let ctx = CheckContext::StatusContext {
        context: "ci/legacy".to_string(),
        state: "ERROR".to_string(),
        target_url: None,
    };
    assert!(ctx.has_failed());
    let ok = CheckContext::CheckRun {
        name: "lint".to_string(),
        conclusion: Some("SUCCESS".to_string()),
        status: "COMPLETED".to_string(),
        details_url: None,
    };
    assert!(!ok.has_failed());
    let running = CheckContext::CheckRun {
        name: "lint".to_string(),
        conclusion: None,
        status: "IN_PROGRESS".to_string(),
        details_url: None,
    };
    assert!(!running.has_failed());
}

#[test]
fn rollup_reads_the_first_commit_only() {
    let pr = pr_with_commits(vec![rollup("PENDING"), rollup("FAILURE")]);
    assert_eq!(pr.rollup().unwrap().state, "PENDING");
    assert!(pr_with_commits(vec![]).rollup().is_none());
}

#[test]
fn merged_pr_rollup_comes_from_the_merge_commit() {
    let m = MergedPullRequest {
        number: 2,
        title: "t".to_string(),
        url: "u".to_string(),
        merged_at: "2026-06-20T10:00:00Z".to_string(),
        author: None,
        repository: Repository {
            name_with_owner: "o/r".to_string(),
        },
        merge_commit: Some(Commit {
            status_check_rollup: rollup("FAILURE"),
        }),
    };
    assert_eq!(m.merge_rollup().unwrap().state, "FAILURE");
    assert_eq!(m.verdict(), Verdict::Failing);
}
