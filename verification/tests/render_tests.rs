use ghcheck::model::{
    Author, CheckContext, Commit, CommitNode, Commits, Contexts, MergedPullRequest, PullRequest,
    Repository, StatusCheckRollup,
};
use ghcheck::render::{
    age_label, conflicting_entries, display_order, draft_marker, failed_check_name,
    failed_check_names, failing_entries, filter, humanize_age, latest_failing_per_repo,
    merge_cell, post_merge_order, status_cell, summarize, summary_line, table_row, truncate,
};
use ghcheck::render::OpenSummary;

fn open_pr(mergeable: &str, rollup_state: &str) -> PullRequest {
    PullRequest {
        number: 1,
        title: "t".to_string(),
        url: "https://example.test/o/r/pull/1".to_string(),
        created_at: "2026-06-20T10:00:00Z".to_string(),
        author: None,
        mergeable: mergeable.to_string(),
        is_draft: false,
        repository: Repository {
            name_with_owner: "o/r".to_string(),
        },
        commits: Commits {
            nodes: vec![CommitNode {
                commit: Commit {
                    status_check_rollup: Some(StatusCheckRollup {
                        state: rollup_state.to_string(),
                        contexts: Contexts { nodes: vec![] },
                    }),
                },
            }],
        },
    }
}

const HOSTILE: &str = "\u{1b}[31mFORGED-PASS\u{1b}[0m\u{7}";

fn open_pr_authored_by(login: &str) -> PullRequest {
    let mut pr = open_pr("MERGEABLE", "SUCCESS");
    pr.author = Some(Author {
        login: login.to_string(),
    });
    pr
}

/// Every cell of a row, as the table shows them, side by side.
fn rendered_row(pr: &PullRequest) -> String {
    let mut out = String::new();
    for cell in table_row(pr) {
        out.push_str(&cell);
        out.push('|');
    }
    out
}

#[test]
fn author_column_is_encoded() {
    let pr = open_pr_authored_by(HOSTILE);
    let rendered = rendered_row(&pr);
    assert!(
        !rendered.contains("\u{1b}[31mFORGED-PASS"),
        "attacker colour sequence reached the table: {rendered:?}"
    );
    assert!(!rendered.contains('\u{7}'), "BEL reached the table");
}

#[test]
fn every_remote_string_column_is_encoded() {
    let mut pr = open_pr_authored_by(HOSTILE);
    pr.title = HOSTILE.to_string();
    pr.repository.name_with_owner = HOSTILE.to_string();
    let rendered = rendered_row(&pr);
    assert!(!rendered.contains('\u{7}'), "BEL reached the table");
    assert!(
        !rendered.contains("\u{1b}[31mFORGED-PASS"),
        "attacker colour sequence reached the table: {rendered:?}"
    );
}

#[test]
fn ordinary_author_is_left_intact() {
    let pr = open_pr_authored_by("renovate[bot]");
    assert!(rendered_row(&pr).contains("renovate[bot]"));
}

const BENIGN_UNKNOWN: &str = "SOME_NEW_STATE";

fn control_chars(s: &str) -> usize {
    s.chars().filter(|c| c.is_control()).count()
}

#[test]
fn status_cell_fallback_arm_encodes_unrecognized_state() {
    let hostile = status_cell(&open_pr("MERGEABLE", HOSTILE));
    let benign = status_cell(&open_pr("MERGEABLE", BENIGN_UNKNOWN));
    assert_eq!(
        control_chars(&hostile),
        control_chars(&benign),
        "remote state contributed control characters: {hostile:?}"
    );
    assert!(!hostile.contains('\u{7}'), "BEL survived: {hostile:?}");
    assert!(
        !hostile.contains("\u{1b}[31m"),
        "attacker colour sequence survived: {hostile:?}"
    );
}

#[test]
fn merge_cell_fallback_arm_encodes_unrecognized_state() {
    let hostile = merge_cell(&open_pr(HOSTILE, "SUCCESS"));
    let benign = merge_cell(&open_pr(BENIGN_UNKNOWN, "SUCCESS"));
    assert_eq!(
        control_chars(&hostile),
        control_chars(&benign),
        "remote mergeable contributed control characters: {hostile:?}"
    );
    assert!(!hostile.contains('\u{7}'), "BEL survived: {hostile:?}");
    assert!(
        !hostile.contains("\u{1b}[31m"),
        "attacker colour sequence survived: {hostile:?}"
    );
}

#[test]
fn recognized_states_keep_their_styling() {
    let pass = status_cell(&open_pr("MERGEABLE", "SUCCESS"));
    assert!(pass.contains("PASS"), "expected PASS text: {pass:?}");
    assert!(
        pass.contains('\u{1b}'),
        "own colour codes were stripped: {pass:?}"
    );
    let ok = merge_cell(&open_pr("MERGEABLE", "SUCCESS"));
    assert!(ok.contains("ok"), "expected ok text: {ok:?}");
    assert!(
        ok.contains('\u{1b}'),
        "own colour codes were stripped: {ok:?}"
    );
}

fn merged(repo: &str, number: u32, merged_at: &str, state: &str) -> MergedPullRequest {
    MergedPullRequest {
        number,
        title: format!("PR #{number}"),
        url: format!("https://example.test/{repo}/pull/{number}"),
        merged_at: merged_at.to_string(),
        author: None,
        repository: Repository {
            name_with_owner: repo.to_string(),
        },
        merge_commit: Some(Commit {
            status_check_rollup: Some(StatusCheckRollup {
                state: state.to_string(),
                contexts: Contexts { nodes: vec![] },
            }),
        }),
    }
}

fn open_pr_numbered(number: u32, rollup_state: Option<&str>) -> PullRequest {
    PullRequest {
        number,
        title: format!("PR #{number}"),
        url: "u".to_string(),
        created_at: "2026-06-20T10:00:00Z".to_string(),
        author: None,
        mergeable: "MERGEABLE".to_string(),
        is_draft: false,
        repository: Repository {
            name_with_owner: "o/r".to_string(),
        },
        commits: Commits {
            nodes: vec![CommitNode {
                commit: Commit {
                    status_check_rollup: rollup_state.map(|st| StatusCheckRollup {
                        state: st.to_string(),
                        contexts: Contexts { nodes: vec![] },
                    }),
                },
            }],
        },
    }
}

#[test]
fn failing_filter_surfaces_every_non_passing_pr() {
    let out = filter(
        vec![
            open_pr_numbered(1, None),
            open_pr_numbered(2, Some("SOME_NEW_STATE")),
            open_pr_numbered(3, Some("FAILURE")),
            open_pr_numbered(4, Some("PENDING")),
        ],
        true,
        false,
        false,
    );
    assert_eq!(
        out.len(),
        4,
        "non-passing PRs omitted from --failing: kept {:?}",
        out.iter().map(|p| p.number).collect::<Vec<_>>()
    );
}

#[test]
fn failing_filter_still_excludes_passing_prs() {
    let out = filter(vec![open_pr_numbered(1, Some("SUCCESS"))], true, false, false);
    assert!(out.is_empty(), "a green PR was surfaced by --failing");
}

fn merged_no_rollup(repo: &str, number: u32, merged_at: &str) -> MergedPullRequest {
    let mut m = merged(repo, number, merged_at, "SUCCESS");
    m.merge_commit = Some(Commit {
        status_check_rollup: None,
    });
    m
}

fn merged_no_commit(repo: &str, number: u32, merged_at: &str) -> MergedPullRequest {
    let mut m = merged(repo, number, merged_at, "SUCCESS");
    m.merge_commit = None;
    m
}

#[test]
fn a_verdictless_newer_merge_does_not_evict_a_failure() {
    for (label, newer) in [
        (
            "null rollup",
            merged_no_rollup("o/r", 2, "2026-08-12T10:00:00Z"),
        ),
        (
            "no merge commit",
            merged_no_commit("o/r", 2, "2026-08-12T10:00:00Z"),
        ),
        (
            "pending",
            merged("o/r", 2, "2026-08-12T10:00:00Z", "PENDING"),
        ),
    ] {
        let out = latest_failing_per_repo(vec![
            merged("o/r", 1, "2026-08-11T10:00:00Z", "FAILURE"),
            newer,
        ]);
        assert_eq!(
            out.len(),
            1,
            "a newer merge with a {label} verdict evicted a real FAILURE"
        );
        assert_eq!(out[0].number, 1);
    }
}

#[test]
fn an_unsettled_merge_falls_through_to_the_newest_settled_one() {
    let out = latest_failing_per_repo(vec![
        merged("o/r", 1, "2026-08-10T10:00:00Z", "FAILURE"),
        merged("o/r", 2, "2026-08-11T10:00:00Z", "PENDING"),
        merged_no_rollup("o/r", 3, "2026-08-12T10:00:00Z"),
    ]);
    assert_eq!(out.len(), 1);
    assert_eq!(out[0].number, 1);
}

#[test]
fn an_unsettled_merge_does_not_resurrect_a_superseded_failure() {
    let out = latest_failing_per_repo(vec![
        merged("o/r", 1, "2026-08-10T10:00:00Z", "FAILURE"),
        merged("o/r", 2, "2026-08-11T10:00:00Z", "SUCCESS"),
        merged_no_rollup("o/r", 3, "2026-08-12T10:00:00Z"),
    ]);
    assert!(
        out.is_empty(),
        "a failure already superseded by a green rebuild was resurrected"
    );
}

#[test]
fn latest_green_supersedes_earlier_failures() {
    let out = latest_failing_per_repo(vec![
        merged("o/r", 1, "2026-06-18T10:00:00Z", "FAILURE"),
        merged("o/r", 2, "2026-06-20T10:00:00Z", "SUCCESS"),
    ]);
    assert!(out.is_empty());
}

#[test]
fn latest_red_is_reported_despite_earlier_pass() {
    let out = latest_failing_per_repo(vec![
        merged("o/r", 1, "2026-06-18T10:00:00Z", "SUCCESS"),
        merged("o/r", 2, "2026-06-20T10:00:00Z", "FAILURE"),
    ]);
    assert_eq!(out.len(), 1);
    assert_eq!(out[0].number, 2);
}

#[test]
fn repos_are_independent() {
    let out = latest_failing_per_repo(vec![
        merged("o/red", 1, "2026-06-20T10:00:00Z", "FAILURE"),
        merged("o/green", 2, "2026-06-19T10:00:00Z", "FAILURE"),
        merged("o/green", 3, "2026-06-21T10:00:00Z", "SUCCESS"),
    ]);
    assert_eq!(out.len(), 1);
    assert_eq!(out[0].repository.name_with_owner, "o/red");
}

// ---- further cases ----

#[test]
fn report_is_newest_first_and_ties_keep_input_order() {
    let out = latest_failing_per_repo(vec![
        merged("o/a", 1, "2026-06-18T10:00:00Z", "FAILURE"),
        merged("o/b", 2, "2026-06-20T10:00:00Z", "FAILURE"),
        merged("o/c", 3, "2026-06-20T10:00:00Z", "ERROR"),
        merged("o/c", 4, "2026-06-20T10:00:00Z", "SUCCESS"),
    ]);
    assert_eq!(out.iter().map(|m| m.number).collect::<Vec<_>>(), vec![2, 3, 1]);
}

#[test]
fn exact_cell_texts() {
    assert_eq!(status_cell(&open_pr("MERGEABLE", "SUCCESS")), "\u{1b}[32mPASS\u{1b}[39m");
    assert_eq!(
        status_cell(&open_pr("MERGEABLE", "FAILURE")),
        "\u{1b}[1m\u{1b}[31mFAIL\u{1b}[39m\u{1b}[0m"
    );
    assert_eq!(status_cell(&open_pr("MERGEABLE", "PENDING")), "\u{1b}[33mPENDING\u{1b}[39m");
    assert_eq!(status_cell(&open_pr("MERGEABLE", "EXPECTED")), "\u{1b}[2mEXPECTED\u{1b}[0m");
    assert_eq!(status_cell(&open_pr_numbered(1, None)), "\u{1b}[2mno checks\u{1b}[0m");
    assert_eq!(status_cell(&open_pr("MERGEABLE", "WEIRD\u{7}")), "WEIRD\u{b7}");
    assert_eq!(merge_cell(&open_pr("CONFLICTING", "SUCCESS")), "\u{1b}[1m\u{1b}[31mCONFLICT\u{1b}[39m\u{1b}[0m");
    assert_eq!(merge_cell(&open_pr("UNKNOWN", "SUCCESS")), "\u{1b}[2m?\u{1b}[0m");
    assert_eq!(merge_cell(&open_pr("NEW\u{1b}", "SUCCESS")), "\u{1b}[2mNEW\u{b7}\u{1b}[0m");
}

#[test]
fn truncate_cuts_with_an_ellipsis() {
    assert_eq!(truncate("abcdef", 6), "abcdef");
    assert_eq!(truncate("abcdefg", 6), "abcde…");
    assert_eq!(truncate("abc", 0), "…");
    assert_eq!(truncate("a\u{7}b", 10), "a\u{b7}b");
}

#[test]
fn draft_marker_and_failed_checks() {
    let mut pr = open_pr("MERGEABLE", "SUCCESS");
    assert_eq!(draft_marker(&pr), "");
    pr.is_draft = true;
    assert_eq!(draft_marker(&pr), " (draft)");
    let failed = CheckContext::CheckRun {
        name: "build".to_string(),
        conclusion: Some("CANCELLED".to_string()),
        status: "COMPLETED".to_string(),
        details_url: None,
    };
    let passed = CheckContext::StatusContext {
        context: "ci".to_string(),
        state: "SUCCESS".to_string(),
        target_url: None,
    };
    let errored = CheckContext::StatusContext {
        context: "legacy".to_string(),
        state: "ERROR".to_string(),
        target_url: None,
    };
    assert_eq!(failed_check_name(&failed), Some("build".to_string()));
    assert_eq!(failed_check_name(&passed), None);
    let rollup = StatusCheckRollup {
        state: "FAILURE".to_string(),
        contexts: Contexts { nodes: vec![failed, passed, errored] },
    };
    assert_eq!(failed_check_names(&rollup), vec!["build".to_string(), "legacy".to_string()]);
}

#[test]
fn age_labels() {
    assert_eq!(age_label(3 * 86400 + 5), "3d");
    assert_eq!(age_label(86399), "23h");
    assert_eq!(age_label(3600), "1h");
    assert_eq!(age_label(3599), "59m");
    assert_eq!(age_label(59), "0m");
    assert_eq!(age_label(-500), "0m");
    assert_eq!(humanize_age("not a date"), "?");
    assert!(humanize_age("2000-01-01T00:00:00Z").ends_with('d'));
}

#[test]
fn display_order_puts_failing_first_then_repo_then_number() {
    let mut a = open_pr_numbered(5, Some("SUCCESS"));
    a.repository.name_with_owner = "o/b".to_string();
    let mut b = open_pr_numbered(2, Some("FAILURE"));
    b.repository.name_with_owner = "o/z".to_string();
    let mut c = open_pr_numbered(1, Some("SUCCESS"));
    c.repository.name_with_owner = "o/b".to_string();
    let d = open_pr_numbered(9, Some("PENDING"));
    assert_eq!(display_order(&vec![a, b, c, d]), vec![1, 2, 0, 3]);
}

#[test]
fn post_merge_order_by_repo_then_number() {
    let ms = vec![
        merged("o/z", 1, "2026-06-18T10:00:00Z", "FAILURE"),
        merged("o/a", 7, "2026-06-18T10:00:00Z", "FAILURE"),
        merged("o/a", 3, "2026-06-18T10:00:00Z", "FAILURE"),
    ];
    assert_eq!(post_merge_order(&ms), vec![2, 1, 0]);
}

#[test]
fn summary_counts() {
    let mut bot = open_pr_numbered(1, Some("FAILURE"));
    bot.author = Some(Author { login: "dependabot[bot]".to_string() });
    let mut conflict = open_pr_numbered(2, Some("SUCCESS"));
    conflict.mergeable = "CONFLICTING".to_string();
    let s = summarize(&vec![bot, conflict, open_pr_numbered(3, None)]);
    assert_eq!((s.total, s.failing, s.conflicting, s.bots), (3, 1, 1, 1));
}

#[test]
fn filter_by_bot_and_draft() {
    let mut bot = open_pr_numbered(1, Some("SUCCESS"));
    bot.author = Some(Author { login: "renovate".to_string() });
    let mut draft = open_pr_numbered(2, Some("SUCCESS"));
    draft.is_draft = true;
    let human = open_pr_numbered(3, Some("SUCCESS"));
    let all = vec![bot, draft, human];
    let only_bot = filter(all.clone(), false, true, false);
    assert_eq!(only_bot.iter().map(|p| p.number).collect::<Vec<_>>(), vec![1]);
    let no_drafts = filter(all, false, false, true);
    assert_eq!(no_drafts.iter().map(|p| p.number).collect::<Vec<_>>(), vec![1, 3]);
}

#[test]
fn one_repository_never_hides_another() {
    let a = vec![
        merged("o/a", 1, "2026-06-18T10:00:00Z", "FAILURE"),
        merged("o/a", 2, "2026-06-19T10:00:00Z", "PENDING"),
    ];
    let b = vec![
        merged("o/b", 3, "2026-06-20T10:00:00Z", "SUCCESS"),
        merged("o/b", 4, "2026-06-17T10:00:00Z", "FAILURE"),
    ];
    let mut both = a.clone();
    both.extend(b.clone());
    let numbers = |v: Vec<MergedPullRequest>| v.iter().map(|m| m.number).collect::<Vec<_>>();
    assert_eq!(numbers(latest_failing_per_repo(a)), vec![1]);
    assert!(latest_failing_per_repo(b).is_empty());
    assert_eq!(numbers(latest_failing_per_repo(both)), vec![1]);
}

#[test]
fn report_on_one_repository_is_the_report_restricted_to_it() {
    let interleaved = vec![
        merged("o/a", 1, "2026-06-18T10:00:00Z", "FAILURE"),
        merged("o/b", 2, "2026-06-21T10:00:00Z", "FAILURE"),
        merged("o/a", 3, "2026-06-19T10:00:00Z", "PENDING"),
        merged("o/b", 4, "2026-06-20T10:00:00Z", "SUCCESS"),
        merged("o/c", 5, "2026-06-22T10:00:00Z", "SUCCESS"),
    ];
    let numbers = |v: Vec<MergedPullRequest>| v.iter().map(|m| m.number).collect::<Vec<_>>();
    let full = latest_failing_per_repo(interleaved.clone());
    for repo in ["o/a", "o/b", "o/c"] {
        let own: Vec<MergedPullRequest> = interleaved
            .iter()
            .filter(|m| m.repository.name_with_owner == repo)
            .cloned()
            .collect();
        let restricted: Vec<MergedPullRequest> = full
            .iter()
            .filter(|m| m.repository.name_with_owner == repo)
            .cloned()
            .collect();
        assert_eq!(numbers(restricted), numbers(latest_failing_per_repo(own)), "{repo}");
    }
    let mut sorted = numbers(full);
    sorted.sort();
    assert_eq!(sorted, vec![1, 2]);
}

#[test]
fn filter_without_flags_keeps_everything() {
    let prs = vec![open_pr_numbered(1, Some("SUCCESS")), open_pr_numbered(2, None)];
    let kept = filter(prs.clone(), false, false, false);
    assert_eq!(kept.iter().map(|p| p.number).collect::<Vec<_>>(), vec![1, 2]);
    let once = filter(prs.clone(), true, false, false);
    let twice = filter(once.clone(), true, false, false);
    assert_eq!(once.len(), twice.len());
}

#[test]
fn truncate_and_cells_replace_tab() {
    assert_eq!(truncate("a\tb", 10), "a\u{b7}b");
    assert_eq!(status_cell(&open_pr("MERGEABLE", "NEW\tSTATE")), "NEW\u{b7}STATE");
}

#[test]
fn table_row_cells() {
    let mut pr = open_pr_authored_by("octocat");
    pr.number = 42;
    pr.is_draft = true;
    let row = table_row(&pr);
    assert_eq!(row.len(), 7);
    assert_eq!(row[0], "o/r");
    assert_eq!(row[1], "#42");
    assert_eq!(row[2], "t (draft)");
    assert_eq!(row[3], "octocat");
}

#[test]
fn summary_line_reads_like_the_report() {
    let s = OpenSummary { total: 12, failing: 3, conflicting: 0, bots: 105 };
    assert_eq!(
        summary_line(&s),
        "12 open PR(s) \u{2014} 3 failing, 0 conflicting, 105 from bots"
    );
}

#[test]
fn sections_follow_the_display_order() {
    let mut a = open_pr("MERGEABLE", "FAILURE");
    a.number = 1;
    let mut b = open_pr("CONFLICTING", "SUCCESS");
    b.number = 2;
    let mut c = open_pr("CONFLICTING", "ERROR");
    c.number = 3;
    let prs = vec![a, b, c];
    let order = vec![2, 0, 1];
    assert_eq!(failing_entries(&prs, &order), vec![2, 0]);
    assert_eq!(conflicting_entries(&prs, &order), vec![2, 1]);
    // A position past the end is never selected.
    assert_eq!(failing_entries(&prs, &vec![7, 0]), vec![0]);
}
