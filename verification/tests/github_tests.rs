use ghcheck::github::{
    describe_stderr, graphql_args, merged_prs_search, open_prs_search, parse_login, LoginError,
    PageStep, PaginateError, Pagination, MERGED_QUERY_TEMPLATE, QUERY_TEMPLATE,
};
use ghcheck::model::{PageInfo, Search};

fn page(nodes: Vec<u32>, next: Option<&str>, total: Option<u32>) -> Search<u32> {
    Search {
        nodes,
        issue_count: total,
        page_info: Some(PageInfo {
            has_next_page: next.is_some(),
            end_cursor: next.map(|c| c.to_string()),
        }),
    }
}

/// Drives a walk the way the program does, with `fetch_page` standing in for `gh`.
fn paginate<F>(mut fetch_page: F) -> Result<Vec<u32>, PaginateError>
where
    F: FnMut(Option<&str>) -> Search<u32>,
{
    let mut walk = Pagination::new();
    let mut cursor: Option<String> = None;
    loop {
        let next = fetch_page(cursor.as_deref());
        match walk.accept(next)? {
            PageStep::Fetch(c) => cursor = Some(c),
            PageStep::Complete { .. } => return Ok(walk.into_records()),
        }
    }
}

#[test]
fn both_query_documents_request_the_truncation_signals() {
    for (name, doc) in [
        ("QUERY_TEMPLATE", QUERY_TEMPLATE),
        ("MERGED_QUERY_TEMPLATE", MERGED_QUERY_TEMPLATE),
    ] {
        assert!(
            doc.contains("issueCount"),
            "{name} does not request issueCount"
        );
        assert!(
            doc.contains("hasNextPage") && doc.contains("endCursor"),
            "{name} does not request pageInfo {{ hasNextPage endCursor }}"
        );
        assert!(
            doc.contains("$cursor: String") && doc.contains("after: $cursor"),
            "{name} does not accept or apply a cursor"
        );
    }
}

#[test]
fn the_cursor_is_passed_through_to_gh() {
    let first = graphql_args("Q", "is:pr", None);
    assert!(
        !first.iter().any(|a| a.starts_with("cursor=")),
        "first page should not send a cursor: {first:?}"
    );

    let next = graphql_args("Q", "is:pr", Some("CURSOR1"));
    assert!(
        next.iter().any(|a| a == "cursor=CURSOR1"),
        "cursor was not forwarded to gh: {next:?}"
    );
    assert_eq!(
        next.iter().filter(|a| *a == "-f").count(),
        3,
        "cursor was not passed as its own -f variable: {next:?}"
    );
}

#[test]
fn paginate_walks_every_page() {
    let mut seen = 0usize;
    let all = paginate(|cursor| {
        seen += 1;
        match cursor {
            None => page(vec![1, 2], Some("c1"), Some(5)),
            Some("c1") => page(vec![3, 4], Some("c2"), Some(5)),
            _ => page(vec![5], None, Some(5)),
        }
    })
    .unwrap();
    assert_eq!(all, vec![1, 2, 3, 4, 5], "pagination dropped records");
    assert_eq!(seen, 3, "did not follow the cursor to exhaustion");
}

#[test]
fn paginate_handles_a_response_without_page_info() {
    let all = paginate(|_| Search {
        nodes: vec![7, 8],
        issue_count: None,
        page_info: None,
    })
    .unwrap();
    assert_eq!(all, vec![7, 8]);
}

#[test]
fn paginate_fails_loudly_rather_than_truncating_silently() {
    let err = paginate(|_| page(vec![0u32; 500], Some("forever"), None))
        .expect_err("runaway pagination was not caught");
    let text = err.message();
    assert!(text.contains("records"), "unhelpful error: {text}");
}

#[test]
fn paginate_reports_a_cursor_that_promises_more_but_gives_none() {
    let err = paginate(|_| Search {
        nodes: vec![1u32],
        issue_count: None,
        page_info: Some(PageInfo {
            has_next_page: true,
            end_cursor: None,
        }),
    })
    .expect_err("missing cursor was not caught");
    let text = err.message();
    assert!(text.contains("cursor"), "unhelpful error: {text}");
}

const HOSTILE: &[u8] =
    b"\x1b[2J\x1b[H\x1b[32mHTTP 200: everything is fine\x1b[0m\x1b]0;pwned\x07";

#[test]
fn describe_stderr_encodes_terminal_control_sequences() {
    let out = describe_stderr(HOSTILE);
    assert!(!out.contains('\u{1b}'), "ESC survived: {out:?}");
    assert!(!out.contains('\u{7}'), "BEL survived: {out:?}");
}

#[test]
fn describe_stderr_keeps_the_readable_message() {
    assert!(describe_stderr(HOSTILE).contains("HTTP 200: everything is fine"));
    assert_eq!(
        describe_stderr(b"  gh: not authenticated  "),
        "gh: not authenticated"
    );
}

#[test]
fn describe_stderr_caps_pathological_output() {
    let flood = vec![b'A'; 200_000];
    let out = describe_stderr(&flood);
    assert!(
        out.chars().count() <= 4096,
        "output not capped: {} chars",
        out.chars().count()
    );
    assert!(
        out.contains("truncated"),
        "truncation not signalled: {out:?}"
    );
}

#[test]
fn describe_stderr_handles_invalid_utf8() {
    let out = describe_stderr(&[0xff, 0xfe, b'h', b'i']);
    assert!(out.contains("hi"));
}

// ---- further cases ----

#[test]
fn describe_stderr_cap_is_exact() {
    let out = describe_stderr(&vec![b'B'; 2049]);
    assert_eq!(out, format!("{}… (truncated)", "B".repeat(2048)));
    let out = describe_stderr(&vec![b'B'; 2048]);
    assert_eq!(out, "B".repeat(2048));
    assert_eq!(describe_stderr(&[0xff, b'x']), "\u{FFFD}x");
    assert_eq!(describe_stderr(b"\tgh:\tfailed\n"), "gh:\u{b7}failed");
}

#[test]
fn graphql_args_are_exact() {
    assert_eq!(
        graphql_args("Q", "S", Some("C")),
        vec!["api", "graphql", "-f", "query=Q", "-f", "q=S", "-f", "cursor=C"]
    );
    assert_eq!(
        graphql_args("Q", "S", None),
        vec!["api", "graphql", "-f", "query=Q", "-f", "q=S"]
    );
}

#[test]
fn search_strings_scope_to_the_owner() {
    assert_eq!(open_prs_search("me"), "is:pr is:open archived:false user:me");
    assert_eq!(
        merged_prs_search("me", "2026-06-13"),
        "is:pr is:merged archived:false user:me merged:>=2026-06-13"
    );
}

#[test]
fn login_is_trimmed_and_checked() {
    assert_eq!(parse_login(b"octocat\n"), Ok("octocat".to_string()));
    assert_eq!(parse_login(b"  \n"), Err(LoginError::Empty));
    assert_eq!(parse_login(&[0xff, b'a']), Err(LoginError::NotUtf8));
}

#[test]
fn a_short_final_page_reports_the_shortfall() {
    let mut walk = Pagination::new();
    match walk.accept(page(vec![1, 2, 3], None, Some(1500))).unwrap() {
        PageStep::Complete { reported_total } => assert_eq!(reported_total, Some(1500)),
        PageStep::Fetch(_) => panic!("a last page asked for more"),
    }
    let mut walk = Pagination::new();
    match walk.accept(page(vec![1, 2, 3], None, Some(3))).unwrap() {
        PageStep::Complete { reported_total } => assert_eq!(reported_total, None),
        PageStep::Fetch(_) => panic!("a last page asked for more"),
    }
    assert_eq!(walk.into_records(), vec![1, 2, 3]);
}

#[test]
fn paginate_error_messages() {
    assert!(PaginateError::TooManyRecords.message().contains("2000 records"));
    assert!(PaginateError::MissingCursor.message().contains("no end cursor"));
}
