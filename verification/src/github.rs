//! What the library decides around the `gh` CLI: the argv of a GraphQL page request, the
//! query documents, the search strings, how a paginated search is walked, and how the
//! CLI's own output is read and encoded.
use crate::model::{PageInfo, Search};
use crate::text::{
    category_is_format, chars_of, is_format_category, is_control_char, is_inert, must_neutralize, owned, push_all, sanitize, sanitized, string_from_range, string_views,
    trim, trimmed,
};
use vstd::prelude::*;
use vstd::utf8::{decode_utf8, valid_utf8};

verus! {

broadcast use vstd::string::group_string_axioms;

/// Maximum number of characters of child-process stderr echoed into an error.
pub const MAX_STDERR_CHARS: usize = 2048;

/// Hard ceiling on records accumulated across pages, so a looping or pathological cursor
/// cannot spin forever.
pub const MAX_RECORDS: usize = 2000;

/// The decoding `String::from_utf8_lossy` performs (invalid sequences become U+FFFD).
pub uninterp spec fn utf8_lossy(bytes: Seq<u8>) -> Seq<char>;

/// `String::from_utf8_lossy` on `b`. Claimed: the result is the fixed decoding named
/// [`utf8_lossy`], and for valid UTF-8 it is the plain decoding, as std documents.
#[verifier::external_body]
fn lossy_utf8(b: &[u8]) -> (r: String)
    ensures
        r@ == utf8_lossy(b@),
        valid_utf8(b@) ==> r@ == decode_utf8(b@),
{
    String::from_utf8_lossy(b).into_owned()
}

/// `std::str::from_utf8` on `b`, as an owned string. Claimed, as std documents: it
/// succeeds exactly on valid UTF-8, with the decoded characters.
#[verifier::external_body]
fn strict_utf8(b: &[u8]) -> (r: Option<String>)
    ensures
        r is Some <==> valid_utf8(b@),
        r matches Some(s) ==> s@ == decode_utf8(b@),
{
    match std::str::from_utf8(b) {
        Ok(s) => Some(s.to_string()),
        Err(_) => None,
    }
}

/// The marker that ends a capped stderr excerpt.
pub open spec fn truncation_marker() -> Seq<char> {
    seq!['\u{2026}', ' ', '(', 't', 'r', 'u', 'n', 'c', 'a', 't', 'e', 'd', ')']
}

/// `e` capped at [`MAX_STDERR_CHARS`] characters, followed by a truncation marker when
/// anything was cut.
pub open spec fn capped(e: Seq<char>) -> Seq<char> {
    if e.len() <= MAX_STDERR_CHARS {
        e
    } else {
        e.take(MAX_STDERR_CHARS as int) + truncation_marker()
    }
}

/// Child-process stderr as it is shown: decoded (lossily), trimmed, encoded, and capped
/// at [`MAX_STDERR_CHARS`] characters followed by a truncation marker.
pub open spec fn described(stderr: Seq<u8>) -> Seq<char> {
    capped(sanitized(trimmed(utf8_lossy(stderr))))
}

/// Render child-process stderr for inclusion in an error message.
///
/// `gh`'s stderr is not this process's own text: it can carry whatever an upstream
/// response persuaded `gh` to print. It is encoded before it reaches the terminal, and
/// capped so a child that floods stderr cannot flood the operator's screen.
pub fn describe_stderr(stderr: &[u8]) -> (r: String)
    ensures
        r@ == described(stderr@),
        valid_utf8(stderr@) ==> r@ == capped(sanitized(trimmed(decode_utf8(stderr@)))),
        r@.len() <= MAX_STDERR_CHARS + truncation_marker().len(),
        forall|i: int| 0 <= i < r@.len() ==> !is_control_char(#[trigger] r@[i]),
        is_inert(r@),
{
    let lossy = lossy_utf8(stderr);
    let trimmed_text = trim(lossy.as_str());
    let encoded = sanitize(trimmed_text.as_str());
    let v = chars_of(encoded.as_str());
    if v.len() <= MAX_STDERR_CHARS {
        return encoded;
    }
    let mut out = string_from_range(&v, 0, MAX_STDERR_CHARS);
    let mut k: usize = 0;
    let marker: [char; 13] = ['\u{2026}', ' ', '(', 't', 'r', 'u', 'n', 'c', 'a', 't', 'e', 'd', ')'];
    assert(marker@ == truncation_marker());
    while k < 13
        invariant
            k <= 13,
            is_inert(v@),
            forall|j: int| 0 <= j < k ==> !is_format_category(#[trigger] truncation_marker()[j]),
            marker@ == truncation_marker(),
            out@ == v@.subrange(0, MAX_STDERR_CHARS as int) + truncation_marker().take(k as int),
        decreases 13 - k,
    {
        let is_format = category_is_format(marker[k]);
        assert(!is_format);
        crate::text::push_char(&mut out, marker[k]);
        k = k + 1;
        assert(out@ =~= v@.subrange(0, MAX_STDERR_CHARS as int) + truncation_marker().take(k as int));
    }
    assert(truncation_marker().take(13) =~= truncation_marker());
    assert(v@.subrange(0, MAX_STDERR_CHARS as int) =~= v@.take(MAX_STDERR_CHARS as int));
    assert forall|i: int| 0 <= i < out@.len() implies !must_neutralize(#[trigger] out@[i]) by {
        if i < MAX_STDERR_CHARS {
            assert(out@[i] == v@[i]);
        } else {
            let c = out@[i];
            assert(c == truncation_marker()[i - MAX_STDERR_CHARS]);
        }
    }
    out
}

/// Why the signed-in login could not be read from `gh`'s output.
#[derive(Debug, Clone, Copy, PartialEq, Eq, Structural)]
pub enum LoginError {
    /// The output is not UTF-8.
    NotUtf8,
    /// The output holds nothing but white space.
    Empty,
}

/// The login `gh api user --jq .login` printed: its output decoded and trimmed; an error
/// for output that is not UTF-8 or is blank.
pub fn parse_login(stdout: &[u8]) -> (r: Result<String, LoginError>)
    ensures
        !valid_utf8(stdout@) ==> r == Err::<String, LoginError>(LoginError::NotUtf8),
        valid_utf8(stdout@) && trimmed(decode_utf8(stdout@)).len() == 0 ==> r == Err::<String, LoginError>(LoginError::Empty),
        valid_utf8(stdout@) && trimmed(decode_utf8(stdout@)).len() > 0 ==> (r matches Ok(s) && s@ == trimmed(decode_utf8(stdout@))),
{
    match strict_utf8(stdout) {
        None => Err(LoginError::NotUtf8),
        Some(s) => {
            let login = trim(s.as_str());
            if chars_of(login.as_str()).len() == 0 {
                Err(LoginError::Empty)
            } else {
                Ok(login)
            }
        },
    }
}

/// The GraphQL document for open pull requests.
pub const QUERY_TEMPLATE: &'static str = r#"
query($q: String!, $cursor: String) {
  search(query: $q, type: ISSUE, first: 100, after: $cursor) {
    issueCount
    pageInfo { hasNextPage endCursor }
    nodes {
      ... on PullRequest {
        number
        title
        url
        createdAt
        author { login }
        mergeable
        isDraft
        repository { nameWithOwner }
        commits(last: 1) {
          nodes {
            commit {
              statusCheckRollup {
                state
                contexts(first: 50) {
                  nodes {
                    __typename
                    ... on CheckRun {
                      name
                      conclusion
                      status
                      detailsUrl
                    }
                    ... on StatusContext {
                      context
                      state
                      targetUrl
                    }
                  }
                }
              }
            }
          }
        }
      }
    }
  }
}
"#;

/// The GraphQL document for merged pull requests and their merge-commit status.
pub const MERGED_QUERY_TEMPLATE: &'static str = r#"
query($q: String!, $cursor: String) {
  search(query: $q, type: ISSUE, first: 100, after: $cursor) {
    issueCount
    pageInfo { hasNextPage endCursor }
    nodes {
      ... on PullRequest {
        number
        title
        url
        mergedAt
        author { login }
        repository { nameWithOwner }
        mergeCommit {
          statusCheckRollup {
            state
            contexts(first: 50) {
              nodes {
                __typename
                ... on CheckRun {
                  name
                  conclusion
                  status
                  detailsUrl
                }
                ... on StatusContext {
                  context
                  state
                  targetUrl
                }
              }
            }
          }
        }
      }
    }
  }
}
"#;

/// `prefix` followed by `value`, as a new string.
fn joined(prefix: &str, value: &str) -> (r: String)
    ensures
        r@ == prefix@ + value@,
{
    let mut r = owned(prefix);
    push_all(&mut r, value);
    r
}

/// The argv of one `gh api graphql` page request.
pub open spec fn graphql_argv(query: Seq<char>, search: Seq<char>, cursor: Option<Seq<char>>) -> Seq<Seq<char>> {
    let base = seq!["api"@, "graphql"@, "-f"@, "query="@ + query, "-f"@, "q="@ + search];
    match cursor {
        Some(c) => base + seq!["-f"@, "cursor="@ + c],
        None => base,
    }
}

/// Build the argv for one `gh api graphql` page request.
///
/// The cursor goes in a `-f` variable of its own; dropping it would silently re-fetch
/// page one forever, which looks identical to "no more pages".
pub fn graphql_args(query: &str, search: &str, cursor: Option<&str>) -> (r: Vec<String>)
    ensures
        string_views(r@) == graphql_argv(query@, search@, match cursor {
            Some(c) => Some(c@),
            None => None,
        }),
{
    let mut args: Vec<String> = Vec::new();
    args.push(owned("api"));
    args.push(owned("graphql"));
    args.push(owned("-f"));
    args.push(joined("query=", query));
    args.push(owned("-f"));
    args.push(joined("q=", search));
    match cursor {
        Some(c) => {
            args.push(owned("-f"));
            args.push(joined("cursor=", c));
        },
        None => {},
    }
    assert(string_views(args@) =~= graphql_argv(query@, search@, match cursor {
        Some(c) => Some(c@),
        None => None,
    }));
    args
}

/// The search for the open pull requests of `owner`'s own repositories.
pub fn open_prs_search(owner: &str) -> (r: String)
    ensures
        r@ == "is:pr is:open archived:false user:"@ + owner@,
{
    joined("is:pr is:open archived:false user:", owner)
}

/// The search for the pull requests of `owner`'s own repositories merged on or after
/// `since` (a `YYYY-MM-DD` date).
pub fn merged_prs_search(owner: &str, since: &str) -> (r: String)
    ensures
        r@ == "is:pr is:merged archived:false user:"@ + owner@ + " merged:>="@ + since@,
{
    let mut r = joined("is:pr is:merged archived:false user:", owner);
    push_all(&mut r, " merged:>=");
    push_all(&mut r, since);
    r
}

/// What to do after a page of a search has been taken in.
#[derive(Debug)]
pub enum PageStep {
    /// Fetch the page after this cursor.
    Fetch(String),
    /// The search is exhausted. `reported_total` holds the number of matches the search
    /// reported when more were reported than could be retrieved (GitHub caps a search at
    /// 1000 results regardless of paging), so the result is known to be partial.
    Complete { reported_total: Option<u32> },
}

/// Why a paginated search was abandoned rather than returned short.
#[derive(Debug, Clone, Copy, PartialEq, Eq, Structural)]
pub enum PaginateError {
    /// More than [`MAX_RECORDS`] records and still more pages.
    TooManyRecords,
    /// The search reported another page but gave no cursor for it.
    MissingCursor,
}

impl PaginateError {
    /// The text this error is reported with.
    pub fn message(&self) -> (r: String)
        ensures
            r@ == match *self {
                PaginateError::TooManyRecords => "more than 2000 records returned for one query — narrow the window rather than trusting a truncated result"@,
                PaginateError::MissingCursor => "search reported another page but returned no end cursor"@,
            },
    {
        match self {
            PaginateError::TooManyRecords => owned("more than 2000 records returned for one query — narrow the window rather than trusting a truncated result"),
            PaginateError::MissingCursor => owned("search reported another page but returned no end cursor"),
        }
    }
}

/// Whether a page says another one follows (a page without paging state is complete).
pub open spec fn has_next(info: Option<PageInfo>) -> bool {
    match info {
        Some(i) => i.has_next_page,
        None => false,
    }
}

/// The total a search reported, when it is more than the `retrieved` records (counted as
/// a `u32`, as the reported total is).
pub open spec fn shortfall(issue_count: Option<u32>, retrieved: nat) -> Option<u32> {
    match issue_count {
        Some(t) => if (retrieved as u32) < t {
            Some(t)
        } else {
            None
        },
        None => None,
    }
}

/// The walk of a paginated search: the records taken in so far.
///
/// GitHub's search returns a relevance-ordered page, not a complete set; consuming only
/// the first page meant a repository's true latest merge could be absent with nothing to
/// indicate anything had been dropped. The walk takes every page until the search says
/// it is exhausted, and fails loudly rather than returning a quietly short list.
pub struct Pagination<T> {
    records: Vec<T>,
}

impl<T> Pagination<T> {
    /// The records taken in so far, in page order.
    pub closed spec fn taken(&self) -> Seq<T> {
        self.records@
    }

    /// A walk that has taken in nothing.
    pub fn new() -> (r: Self)
        ensures
            r.taken() == Seq::<T>::empty(),
    {
        Pagination { records: Vec::new() }
    }

    /// Take in one page and say what to do next.
    ///
    /// The page's records are always appended. A page without a next page completes the
    /// walk; otherwise the walk fails once [`MAX_RECORDS`] records are held, or when the
    /// page gives no cursor, and else asks for the page after its cursor.
    pub fn accept(&mut self, page: Search<T>) -> (r: Result<PageStep, PaginateError>)
        ensures
            final(self).taken() == old(self).taken() + page.nodes@,
            !has_next(page.page_info) ==> r == Ok::<PageStep, PaginateError>(
                PageStep::Complete {
                    reported_total: shortfall(page.issue_count, final(self).taken().len()),
                },
            ),
            has_next(page.page_info) && final(self).taken().len() >= MAX_RECORDS ==> r == Err::<PageStep, PaginateError>(PaginateError::TooManyRecords),
            has_next(page.page_info) && final(self).taken().len() < MAX_RECORDS ==> match page.page_info {
                Some(PageInfo { end_cursor: Some(c), .. }) => (r matches Ok(PageStep::Fetch(x)) && x@ == c@),
                _ => r == Err::<PageStep, PaginateError>(PaginateError::MissingCursor),
            },
    {
        let Search { nodes, issue_count, page_info } = page;
        let mut nodes = nodes;
        self.records.append(&mut nodes);
        let (has_next_page, end_cursor) = match page_info {
            Some(info) => (info.has_next_page, info.end_cursor),
            None => (false, None),
        };
        if !has_next_page {
            let reported_total = match issue_count {
                Some(total) => if (self.records.len() as u32) < total {
                    Some(total)
                } else {
                    None
                },
                None => None,
            };
            return Ok(PageStep::Complete { reported_total });
        }
        if self.records.len() >= MAX_RECORDS {
            return Err(PaginateError::TooManyRecords);
        }
        match end_cursor {
            Some(c) => Ok(PageStep::Fetch(c)),
            None => Err(PaginateError::MissingCursor),
        }
    }

    /// The records taken in, in page order.
    pub fn into_records(self) -> (r: Vec<T>)
        ensures
            r@ == self.taken(),
    {
        self.records
    }
}

} // verus!
