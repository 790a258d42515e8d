//! What the tool shows: which pull requests are listed, the text of each cell, the order
//! of the rows, and which post-merge failures are reported.
use crate::model::{
    CheckContext, Mergeability, MergedPullRequest, PullRequest, StatusCheckRollup, Verdict,
    context_failed,
};
use crate::order::{
    SortKey, index_before, text_lt, is_sorted_permutation, key_views, lemma_index_before_order,
    lemma_sorted_permutation_unique, sort_indices,
};
use crate::text::{
    category_is_format, chars_eq, chars_of, decimal, is_control_char, is_inert, must_neutralize, decimal_string, owned, push_all, push_char, sanitize, sanitized,
    str_eq, string_from_range, string_views,
};
use chrono::{DateTime, Utc};
use owo_colors::OwoColorize;
use vstd::prelude::*;

verus! {

/// The text `s` in green, as `owo_colors` writes it.
pub open spec fn green(s: Seq<char>) -> Seq<char> {
    seq!['\x1b', '[', '3', '2', 'm'] + s + seq!['\x1b', '[', '3', '9', 'm']
}

/// The text `s` in red, as `owo_colors` writes it.
pub open spec fn red(s: Seq<char>) -> Seq<char> {
    seq!['\x1b', '[', '3', '1', 'm'] + s + seq!['\x1b', '[', '3', '9', 'm']
}

/// The text `s` in yellow, as `owo_colors` writes it.
pub open spec fn yellow(s: Seq<char>) -> Seq<char> {
    seq!['\x1b', '[', '3', '3', 'm'] + s + seq!['\x1b', '[', '3', '9', 'm']
}

/// The text `s` in bold, as `owo_colors` writes it.
pub open spec fn bold(s: Seq<char>) -> Seq<char> {
    seq!['\x1b', '[', '1', 'm'] + s + seq!['\x1b', '[', '0', 'm']
}

/// The text `s` dimmed, as `owo_colors` writes it.
pub open spec fn dimmed(s: Seq<char>) -> Seq<char> {
    seq!['\x1b', '[', '2', 'm'] + s + seq!['\x1b', '[', '0', 'm']
}

/// `OwoColorize::green` on `s`, displayed. Claimed from the crate's source: the text is
/// wrapped in `ESC[32m` and `ESC[39m`.
#[verifier::external_body]
fn paint_green(s: &str) -> (r: String)
    ensures
        r@ == green(s@),
{
    s.green().to_string()
}

/// `OwoColorize::red` on `s`, displayed. Claimed from the crate's source: the text is
/// wrapped in `ESC[31m` and `ESC[39m`.
#[verifier::external_body]
fn paint_red(s: &str) -> (r: String)
    ensures
        r@ == red(s@),
{
    s.red().to_string()
}

/// `OwoColorize::yellow` on `s`, displayed. Claimed from the crate's source: the text is
/// wrapped in `ESC[33m` and `ESC[39m`.
#[verifier::external_body]
fn paint_yellow(s: &str) -> (r: String)
    ensures
        r@ == yellow(s@),
{
    s.yellow().to_string()
}

/// `OwoColorize::bold` on `s`, displayed. Claimed from the crate's source: the text is
/// wrapped in `ESC[1m` and `ESC[0m`.
#[verifier::external_body]
fn paint_bold(s: &str) -> (r: String)
    ensures
        r@ == bold(s@),
{
    s.bold().to_string()
}

/// `OwoColorize::dimmed` on `s`, displayed. Claimed from the crate's source: the text is
/// wrapped in `ESC[2m` and `ESC[0m`.
#[verifier::external_body]
fn paint_dimmed(s: &str) -> (r: String)
    ensures
        r@ == dimmed(s@),
{
    s.dimmed().to_string()
}

/// Whether a pull request passes the filters.
pub open spec fn passes_filters(pr: PullRequest, only_failing: bool, only_bot: bool, no_drafts: bool) -> bool {
    &&& !(no_drafts && pr.is_draft)
    &&& (!only_bot || pr.is_bot_of())
    &&& (!only_failing || pr.verdict_of() != Verdict::Passing)
}

/// [`passes_filters`] as a predicate.
pub open spec fn filter_predicate(only_failing: bool, only_bot: bool, no_drafts: bool) -> spec_fn(PullRequest) -> bool {
    |pr: PullRequest| passes_filters(pr, only_failing, only_bot, no_drafts)
}

/// Keep the pull requests that pass the filters, in their order.
///
/// `--failing` means "not known to be green", not "known to be red": a PR whose verdict
/// is unsettled is exactly the case an attacker can manufacture by pushing a commit, so
/// it is kept.
pub fn filter(prs: Vec<PullRequest>, only_failing: bool, only_bot: bool, no_drafts: bool) -> (r: Vec<PullRequest>)
    ensures
        r@ == prs@.filter(filter_predicate(only_failing, only_bot, no_drafts)),
{
    let ghost input = prs@;
    let ghost keep = filter_predicate(only_failing, only_bot, no_drafts);
    let mut out: Vec<PullRequest> = Vec::new();
    for pr in it: prs
        invariant
            it.seq() == input,
            keep == filter_predicate(only_failing, only_bot, no_drafts),
            out@ == input.take(it.index() as int).filter(keep),
    {
        let ghost i = it.index();
        proof {
            assert(pr == input[i as int]);
            assert(input.take(i + 1).drop_last() =~= input.take(i as int));
            reveal_with_fuel(Seq::filter, 1);
        }
        let k = !(no_drafts && pr.is_draft) && (!only_bot || pr.is_bot()) && (!only_failing
            || pr.verdict() != Verdict::Passing);
        assert(k == passes_filters(pr, only_failing, only_bot, no_drafts));
        assert(k == keep(input[i as int]));
        if k {
            out.push(pr);
        }
    }
    assert(input.take(input.len() as int) =~= input);
    out
}

/// The STATUS cell for a pull request whose first returned commit has rollup `r`.
pub open spec fn status_text(r: Option<StatusCheckRollup>) -> Seq<char> {
    match r {
        None => dimmed("no checks"@),
        Some(x) => if x.state@ == "SUCCESS"@ {
            green("PASS"@)
        } else if x.state@ == "FAILURE"@ || x.state@ == "ERROR"@ {
            bold(red("FAIL"@))
        } else if x.state@ == "PENDING"@ {
            yellow("PENDING"@)
        } else if x.state@ == "EXPECTED"@ {
            dimmed("EXPECTED"@)
        } else {
            sanitized(x.state@)
        },
    }
}

/// The MERGE cell for a pull request whose `mergeable` state is `m`.
pub open spec fn merge_text(m: Seq<char>) -> Seq<char> {
    if m == "MERGEABLE"@ {
        green("ok"@)
    } else if m == "CONFLICTING"@ {
        bold(red("CONFLICT"@))
    } else if m == "UNKNOWN"@ {
        dimmed("?"@)
    } else {
        dimmed(sanitized(m))
    }
}

/// Whether every control character of `s` is an ESC (which only the tool's own colour
/// codes write): remote text contributes no control character to a cell.
pub open spec fn only_own_controls(s: Seq<char>) -> bool {
    forall|i: int| 0 <= i < s.len() && is_control_char(#[trigger] s[i]) ==> s[i] == '\x1b'
}

/// The STATUS cell, styled with the tool's own colours.
///
/// A state GitHub adds later reaches the last arm as a raw remote string; it is encoded
/// there, so the cell's own escape sequences stay intact while the remote value cannot
/// contribute any of its own.
pub fn status_cell(pr: &PullRequest) -> (r: String)
    ensures
        r@ == status_text(pr.rollup_of()),
        only_own_controls(r@),
{
    proof {
        reveal_strlit("PASS");
        reveal_strlit("FAIL");
        reveal_strlit("PENDING");
        reveal_strlit("EXPECTED");
        reveal_strlit("no checks");
    }
    match pr.rollup() {
        Some(x) => {
            let st = x.state.as_str();
            if str_eq(st, "SUCCESS") {
                paint_green("PASS")
            } else if str_eq(st, "FAILURE") || str_eq(st, "ERROR") {
                let fail = paint_red("FAIL");
                paint_bold(fail.as_str())
            } else if str_eq(st, "PENDING") {
                paint_yellow("PENDING")
            } else if str_eq(st, "EXPECTED") {
                paint_dimmed("EXPECTED")
            } else {
                sanitize(st)
            }
        },
        None => paint_dimmed("no checks"),
    }
}

/// The MERGE cell, styled with the tool's own colours. An unrecognized remote state is
/// encoded before it is styled: styling wraps a value, it does not encode it.
pub fn merge_cell(pr: &PullRequest) -> (r: String)
    ensures
        r@ == merge_text(pr.mergeable@),
        only_own_controls(r@),
{
    proof {
        reveal_strlit("ok");
        reveal_strlit("CONFLICT");
        reveal_strlit("?");
    }
    let m = pr.mergeable.as_str();
    if str_eq(m, "MERGEABLE") {
        paint_green("ok")
    } else if str_eq(m, "CONFLICTING") {
        let c = paint_red("CONFLICT");
        paint_bold(c.as_str())
    } else if str_eq(m, "UNKNOWN") {
        paint_dimmed("?")
    } else {
        let e = sanitize(m);
        paint_dimmed(e.as_str())
    }
}

/// The marker appended to a draft's title.
pub open spec fn draft_text(pr: PullRequest) -> Seq<char> {
    if pr.is_draft {
        " (draft)"@
    } else {
        ""@
    }
}

pub fn draft_marker(pr: &PullRequest) -> (r: &'static str)
    ensures
        r@ == draft_text(*pr),
{
    if pr.is_draft {
        " (draft)"
    } else {
        ""
    }
}

/// The name a failed check is shown under; none for a check that has not failed.
pub open spec fn failed_name_of(ctx: CheckContext) -> Option<Seq<char>> {
    if context_failed(ctx) {
        match ctx {
            CheckContext::CheckRun { name, .. } => Some(name@),
            CheckContext::StatusContext { context, .. } => Some(context@),
        }
    } else {
        None
    }
}

pub fn failed_check_name(ctx: &CheckContext) -> (r: Option<String>)
    ensures
        match r {
            Some(n) => failed_name_of(*ctx) == Some(n@),
            None => failed_name_of(*ctx) is None,
        },
{
    if !ctx.has_failed() {
        return None;
    }
    match ctx {
        CheckContext::CheckRun { name, .. } => Some(owned(name.as_str())),
        CheckContext::StatusContext { context, .. } => Some(owned(context.as_str())),
    }
}

/// The names of the failed checks among `cs`, in order.
pub open spec fn failed_names(cs: Seq<CheckContext>) -> Seq<Seq<char>>
    decreases cs.len(),
{
    if cs.len() == 0 {
        seq![]
    } else {
        let init = failed_names(cs.drop_last());
        match failed_name_of(cs.last()) {
            Some(n) => init.push(n),
            None => init,
        }
    }
}

/// The names of the failed checks of a rollup, in order: what the detail lines under a
/// failing PR list.
pub fn failed_check_names(rollup: &StatusCheckRollup) -> (r: Vec<String>)
    ensures
        string_views(r@) == failed_names(rollup.contexts.nodes@),
{
    let cs = &rollup.contexts.nodes;
    let mut out: Vec<String> = Vec::new();
    let mut i: usize = 0;
    while i < cs.len()
        invariant
            i <= cs@.len(),
            string_views(out@) == failed_names(cs@.take(i as int)),
        decreases cs@.len() - i,
    {
        assert(cs@.take(i + 1).drop_last() =~= cs@.take(i as int));
        match failed_check_name(&cs[i]) {
            Some(n) => {
                out.push(n);
            },
            None => {},
        }
        assert(string_views(out@) =~= failed_names(cs@.take(i + 1)));
        i = i + 1;
    }
    assert(cs@.take(cs@.len() as int) =~= cs@);
    out
}

/// `s` encoded, then cut to at most `max` characters, the last one an ellipsis when
/// anything was cut.
pub open spec fn truncated(s: Seq<char>, max: nat) -> Seq<char> {
    let e = sanitized(s);
    if e.len() <= max {
        e
    } else {
        e.take(if max >= 1 {
            max - 1
        } else {
            0
        }).push('\u{2026}')
    }
}

/// Encode `s` and cut it to `max` characters (ending in an ellipsis when cut).
pub fn truncate(s: &str, max: usize) -> (r: String)
    ensures
        r@ == truncated(s@, max as nat),
        max >= 1 ==> r@.len() <= max,
        is_inert(r@),
{
    let e = sanitize(s);
    let v = chars_of(e.as_str());
    if v.len() <= max {
        e
    } else {
        let keep: usize = if max >= 1 {
            max - 1
        } else {
            0
        };
        let mut out = string_from_range(&v, 0, keep);
        let ellipsis_is_format = category_is_format('\u{2026}');
        assert(!ellipsis_is_format);
        push_char(&mut out, '\u{2026}');
        assert(v@.subrange(0, keep as int) =~= v@.take(keep as int));
        assert forall|i: int| 0 <= i < out@.len() implies !must_neutralize(#[trigger] out@[i]) by {
            if i < keep {
                assert(out@[i] == v@[i]);
            }
        }
        out
    }
}

/// The repository of a merged pull request.
pub open spec fn repo_of(m: MergedPullRequest) -> Seq<char> {
    m.repository.name_with_owner@
}

/// The scan over merges, newest first: the first merge of a repository that has a
/// settled verdict decides that repository; it is reported when that verdict is
/// `Failing`. A merge without a verdict decides nothing. `decided` holds the repositories
/// already decided.
pub open spec fn scan_latest(s: Seq<MergedPullRequest>, decided: Set<Seq<char>>) -> Seq<MergedPullRequest>
    decreases s.len(),
{
    if s.len() == 0 {
        seq![]
    } else {
        let m = s[0];
        let rest = s.drop_first();
        if decided.contains(repo_of(m)) {
            scan_latest(rest, decided)
        } else {
            match m.verdict_of() {
                Verdict::Passing => scan_latest(rest, decided.insert(repo_of(m))),
                Verdict::Failing => seq![m] + scan_latest(rest, decided.insert(repo_of(m))),
                Verdict::Unknown => scan_latest(rest, decided),
            }
        }
    }
}

/// Sort keys that order merges newest first (by `merged_at`, descending).
pub open spec fn merged_at_keys(ms: Seq<MergedPullRequest>) -> Seq<(u8, Seq<char>, u32)> {
    Seq::new(ms.len(), |i: int| (0u8, ms[i].merged_at@, 0u32))
}

/// `ms` arranged in the order `order` lists.
pub open spec fn arranged<T>(ms: Seq<T>, order: Seq<usize>) -> Seq<T> {
    Seq::new(order.len(), |k: int| ms[order[k] as int])
}

/// Whether `r` is what the post-merge report holds for `ms`: the merges sorted newest
/// first (equal times keeping their input order), then scanned by [`scan_latest`].
pub open spec fn is_latest_failing(ms: Seq<MergedPullRequest>, r: Seq<MergedPullRequest>) -> bool {
    exists|order: Seq<usize>|
        is_sorted_permutation(merged_at_keys(ms), true, order) && r == scan_latest(
            #[trigger] arranged(ms, order),
            Set::empty(),
        )
}

/// Whether some element of `v` has the characters of `r`.
fn holds_repo(v: &Vec<Vec<char>>, r: &Vec<char>) -> (b: bool)
    ensures
        b == exists|k: int| 0 <= k < v@.len() && #[trigger] v@[k]@ == r@,
{
    let mut i: usize = 0;
    while i < v.len()
        invariant
            i <= v@.len(),
            forall|k: int| 0 <= k < i ==> #[trigger] v@[k]@ != r@,
        decreases v@.len() - i,
    {
        if chars_eq(&v[i], r) {
            return true;
        }
        i = i + 1;
    }
    false
}

/// Report, per repository, the newest merge that has a settled verdict, but only when
/// that verdict is a failure.
///
/// Each merge to the default branch re-runs the post-merge pipeline over the full
/// rolled-up tree, so a passing rebuild supersedes earlier failures. Only a passing one:
/// a newer merge that has not finished CI, or has no merge commit at all, is not evidence
/// of anything, so it decides nothing and the scan falls through to the newest merge
/// that does have a verdict.
pub fn latest_failing_per_repo(merged: Vec<MergedPullRequest>) -> (r: Vec<MergedPullRequest>)
    ensures
        is_latest_failing(merged@, r@),
{
    let ghost ms = merged@;
    let n = merged.len();
    let mut keys: Vec<SortKey> = Vec::new();
    let mut i: usize = 0;
    while i < n
        invariant
            n == merged@.len(),
            i <= n,
            keys@.len() == i,
            forall|k: int| 0 <= k < i ==> #[trigger] keys@[k]@ == merged_at_keys(merged@)[k],
        decreases n - i,
    {
        keys.push(SortKey { rank: 0, text: chars_of(merged[i].merged_at.as_str()), number: 0 });
        i = i + 1;
    }
    assert(key_views(keys@) =~= merged_at_keys(merged@));
    let order = sort_indices(&keys, true);
    let ghost sorted = arranged(ms, order@);
    proof {
        assert forall|a: int, b: int| 0 <= a < b < order@.len() implies order@[a] != order@[b] by {
            lemma_index_before_order(merged_at_keys(ms), true, order@[a] as int, order@[b] as int, 0);
        }
        assert(sorted.skip(0) =~= sorted);
        assert(arranged(ms, Seq::<usize>::empty()) =~= Seq::<MergedPullRequest>::empty());
    }
    // Decide, newest first, which merges are reported.
    let mut decided: Vec<Vec<char>> = Vec::new();
    let ghost mut dset: Set<Seq<char>> = Set::empty();
    let mut chosen: Vec<usize> = Vec::new();
    let ghost mut pos: Seq<int> = Seq::empty();
    let mut j: usize = 0;
    while j < n
        invariant
            n == merged@.len() == order@.len(),
            ms == merged@,
            sorted == arranged(ms, order@),
            forall|k: int| 0 <= k < order@.len() ==> #[trigger] order@[k] < n,
            forall|a: int, b: int| 0 <= a < b < order@.len() ==> order@[a] != order@[b],
            j <= n,
            forall|x: Seq<char>| dset.contains(x) <==> exists|k: int| 0 <= k < decided@.len() && #[trigger] decided@[k]@ == x,
            pos.len() == chosen@.len(),
            forall|k: int| 0 <= k < pos.len() ==> 0 <= #[trigger] pos[k] < j && chosen@[k] == order@[pos[k]],
            forall|a: int, b: int| 0 <= a < b < pos.len() ==> pos[a] < pos[b],
            arranged(ms, chosen@) + scan_latest(sorted.skip(j as int), dset) == scan_latest(sorted, Set::empty()),
        decreases n - j,
    {
        let idx = order[j];
        let m = &merged[idx];
        let repo = chars_of(m.repository.name_with_owner.as_str());
        let ghost rest = sorted.skip(j as int);
        let ghost old_decided = decided@;
        let ghost old_chosen = chosen@;
        proof {
            assert(rest[0] == ms[idx as int]);
            assert(rest.drop_first() =~= sorted.skip(j + 1));
        }
        if !holds_repo(&decided, &repo) {
            assert(!dset.contains(repo_of(ms[idx as int])));
            let v = m.verdict();
            match v {
                Verdict::Passing => {
                    decided.push(repo);
                    proof {
                        dset = dset.insert(repo_of(ms[idx as int]));
                    }
                },
                Verdict::Failing => {
                    chosen.push(idx);
                    proof {
                        assert(arranged(ms, chosen@) =~= arranged(ms, old_chosen) + seq![ms[idx as int]]);
                        pos = pos.push(j as int);
                    }
                    decided.push(repo);
                    proof {
                        dset = dset.insert(repo_of(ms[idx as int]));
                    }
                },
                Verdict::Unknown => {},
            }
            proof {
                assert forall|x: Seq<char>| dset.contains(x) <==> exists|k: int| 0 <= k < decided@.len() && #[trigger] decided@[k]@ == x by {
                    if exists|k: int| 0 <= k < old_decided.len() && #[trigger] old_decided[k]@ == x {
                        let k = choose|k: int| 0 <= k < old_decided.len() && #[trigger] old_decided[k]@ == x;
                        assert(decided@[k]@ == x);
                    }
                    if exists|k: int| 0 <= k < decided@.len() && #[trigger] decided@[k]@ == x {
                        let k = choose|k: int| 0 <= k < decided@.len() && #[trigger] decided@[k]@ == x;
                        if k < old_decided.len() {
                            assert(old_decided[k]@ == x);
                        }
                    }
                    if decided@.len() > old_decided.len() && x == repo_of(ms[idx as int]) {
                        assert(decided@[old_decided.len() as int]@ == x);
                    }
                }
            }
        } else {
            assert(dset.contains(repo_of(ms[idx as int])));
        }
        j = j + 1;
    }
    assert(sorted.skip(n as int) =~= Seq::<MergedPullRequest>::empty());
    assert(arranged(ms, chosen@) + Seq::<MergedPullRequest>::empty() =~= arranged(ms, chosen@));
    proof {
        assert forall|a: int, b: int| 0 <= a < b < chosen@.len() implies chosen@[a] != chosen@[b] by {
            assert(pos[a] < pos[b]);
        }
        assert forall|k: int| 0 <= k < chosen@.len() implies #[trigger] chosen@[k] < n by {
            assert(chosen@[k] == order@[pos[k]]);
        }
    }
    // Move the chosen merges out, in the order they were chosen.
    let mut slots: Vec<Option<MergedPullRequest>> = Vec::new();
    for m in it: merged
        invariant
            it.seq() == ms,
            slots@.len() == it.index(),
            forall|k: int| 0 <= k < slots@.len() ==> #[trigger] slots@[k] == Some(ms[k]),
    {
        slots.push(Some(m));
    }
    assert(slots@.len() == n);
    assert(forall|k: int| 0 <= k < chosen@.len() ==> slots@[#[trigger] chosen@[k] as int] == Some(ms[chosen@[k] as int]));
    let mut out: Vec<MergedPullRequest> = Vec::new();
    let mut c: usize = 0;
    while c < chosen.len()
        invariant
            slots@.len() == ms.len() == n,
            forall|k: int| 0 <= k < chosen@.len() ==> #[trigger] chosen@[k] < n,
            forall|a: int, b: int| 0 <= a < b < chosen@.len() ==> chosen@[a] != chosen@[b],
            c <= chosen@.len(),
            out@ == arranged(ms, chosen@.take(c as int)),
            forall|k: int| c <= k < chosen@.len() ==> slots@[#[trigger] chosen@[k] as int] == Some(ms[chosen@[k] as int]),
        decreases chosen@.len() - c,
    {
        let idx = chosen[c];
        let taken = slots[idx].take();
        match taken {
            Some(m) => {
                out.push(m);
            },
            None => {},
        }
        assert(out@ =~= arranged(ms, chosen@.take(c + 1)));
        c = c + 1;
    }
    assert(chosen@.take(chosen@.len() as int) =~= chosen@);
    out
}

/// Whether a merge has a settled (non-`Unknown`) post-merge verdict.
pub open spec fn settled(m: MergedPullRequest) -> bool {
    m.verdict_of() != Verdict::Unknown
}

/// Whether position `p` of `s` holds the first merge of its repository, in `s`'s order,
/// that has a settled verdict.
pub open spec fn decides_repo(s: Seq<MergedPullRequest>, p: int) -> bool {
    &&& settled(s[p])
    &&& forall|q: int| 0 <= q < p && repo_of(#[trigger] s[q]) == repo_of(s[p]) ==> !settled(s[q])
}

/// Deciding position `p + 1` of `s` is deciding position `p` of the rest of `s`, unless
/// the first merge is a settled merge of the same repository.
proof fn lemma_decides_shift(s: Seq<MergedPullRequest>, p: int)
    requires
        0 <= p < s.len() - 1,
    ensures
        decides_repo(s, p + 1) <==> (decides_repo(s.drop_first(), p) && (repo_of(s.drop_first()[p])
            == repo_of(s[0]) ==> !settled(s[0]))),
{
    let rest = s.drop_first();
    assert(s[p + 1] == rest[p]);
    if decides_repo(rest, p) && (repo_of(rest[p]) == repo_of(s[0]) ==> !settled(s[0])) {
        assert forall|q: int| 0 <= q < p + 1 && repo_of(#[trigger] s[q]) == repo_of(s[p + 1]) implies !settled(s[q]) by {
            if q > 0 {
                assert(s[q] == rest[q - 1]);
            }
        }
    }
    if decides_repo(s, p + 1) {
        assert forall|q: int| 0 <= q < p && repo_of(#[trigger] rest[q]) == repo_of(rest[p]) implies !settled(rest[q]) by {
            assert(s[q + 1] == rest[q]);
        }
        if repo_of(rest[p]) == repo_of(s[0]) {
            assert(repo_of(s[0]) == repo_of(s[p + 1]));
        }
    }
}

/// The repositories decided by the first merge of `s`, on top of `d`.
pub open spec fn decided_after_first(s: Seq<MergedPullRequest>, d: Set<Seq<char>>) -> Set<Seq<char>> {
    if d.contains(repo_of(s[0])) || s[0].verdict_of() == Verdict::Unknown {
        d
    } else {
        d.insert(repo_of(s[0]))
    }
}

/// What the first merge of `s` contributes to the scan.
pub open spec fn scan_head(s: Seq<MergedPullRequest>, d: Set<Seq<char>>) -> Seq<MergedPullRequest> {
    if !d.contains(repo_of(s[0])) && s[0].verdict_of() == Verdict::Failing {
        seq![s[0]]
    } else {
        seq![]
    }
}

/// Whether `x` stands at a position of `s` that holds the first settled merge of a
/// repository outside `d`, with a `Failing` verdict.
pub open spec fn decisive_failure_in(s: Seq<MergedPullRequest>, d: Set<Seq<char>>, x: MergedPullRequest) -> bool {
    exists|p: int|
        #![trigger s[p]]
        0 <= p < s.len() && s[p] == x && !d.contains(repo_of(s[p])) && decides_repo(s, p) && s[p].verdict_of()
            == Verdict::Failing
}

/// Every merge the scan reports is the first settled merge of an undecided repository,
/// and is `Failing`.
proof fn lemma_scan_sound(s: Seq<MergedPullRequest>, d: Set<Seq<char>>)
    ensures
        forall|k: int|
            0 <= k < scan_latest(s, d).len() ==> decisive_failure_in(s, d, #[trigger] scan_latest(s, d)[k]),
    decreases s.len(),
{
    if s.len() > 0 {
        let rest = s.drop_first();
        let inner_d = decided_after_first(s, d);
        lemma_scan_sound(rest, inner_d);
        let inner = scan_latest(rest, inner_d);
        let res = scan_latest(s, d);
        let head = scan_head(s, d);
        assert(res == head + inner);
        assert forall|k: int| 0 <= k < res.len() implies decisive_failure_in(s, d, #[trigger] res[k]) by {
            if k < head.len() {
                assert(res[k] == s[0]);
                assert(decides_repo(s, 0));
            } else {
                assert(res[k] == inner[k - head.len()]);
                assert(decisive_failure_in(rest, inner_d, inner[k - head.len()]));
                let p = choose|p: int|
                    #![trigger rest[p]]
                    0 <= p < rest.len() && rest[p] == inner[k - head.len()] && !inner_d.contains(repo_of(rest[p]))
                        && decides_repo(rest, p) && rest[p].verdict_of() == Verdict::Failing;
                lemma_decides_shift(s, p);
                assert(s[p + 1] == rest[p]);
                assert(!d.contains(repo_of(s[p + 1])));
                assert(decides_repo(s, p + 1));
            }
        }
    }
}

/// Every first settled merge of an undecided repository that is `Failing` is reported.
proof fn lemma_scan_complete(s: Seq<MergedPullRequest>, d: Set<Seq<char>>)
    ensures
        forall|p: int|
            0 <= p < s.len() && !d.contains(repo_of(s[p])) && decides_repo(s, p) && #[trigger] s[p].verdict_of()
                == Verdict::Failing ==> exists|k: int| 0 <= k < scan_latest(s, d).len() && #[trigger] scan_latest(s, d)[k] == s[p],
    decreases s.len(),
{
    if s.len() > 0 {
        let rest = s.drop_first();
        let inner_d = decided_after_first(s, d);
        lemma_scan_complete(rest, inner_d);
        let inner = scan_latest(rest, inner_d);
        let res = scan_latest(s, d);
        let head = scan_head(s, d);
        assert(res == head + inner);
        assert forall|p: int|
            0 <= p < s.len() && !d.contains(repo_of(s[p])) && decides_repo(s, p) && #[trigger] s[p].verdict_of()
                == Verdict::Failing implies exists|k: int| 0 <= k < res.len() && #[trigger] res[k] == s[p] by {
            if p == 0 {
                assert(res[0] == s[0]);
            } else {
                lemma_decides_shift(s, p - 1);
                assert(s[p] == rest[p - 1]);
                assert(!inner_d.contains(repo_of(rest[p - 1])));
                let k = choose|k: int| 0 <= k < inner.len() && #[trigger] inner[k] == rest[p - 1];
                assert(res[k + head.len()] == inner[k]);
            }
        }
    }
}

/// The scan reports no repository twice, nor one already decided.
proof fn lemma_scan_distinct(s: Seq<MergedPullRequest>, d: Set<Seq<char>>)
    ensures
        forall|k: int| 0 <= k < scan_latest(s, d).len() ==> !d.contains(repo_of(#[trigger] scan_latest(s, d)[k])),
        forall|a: int, b: int|
            0 <= a < b < scan_latest(s, d).len() ==> repo_of(#[trigger] scan_latest(s, d)[a]) != repo_of(#[trigger] scan_latest(s, d)[b]),
    decreases s.len(),
{
    if s.len() > 0 {
        let rest = s.drop_first();
        let inner_d = decided_after_first(s, d);
        lemma_scan_distinct(rest, inner_d);
        let inner = scan_latest(rest, inner_d);
        let res = scan_latest(s, d);
        let head = scan_head(s, d);
        assert(res == head + inner);
        assert forall|k: int| 0 <= k < res.len() implies !d.contains(repo_of(#[trigger] res[k])) by {
            if k >= head.len() {
                assert(res[k] == inner[k - head.len()]);
            }
        }
        assert forall|a: int, b: int| 0 <= a < b < res.len() implies repo_of(#[trigger] res[a]) != repo_of(#[trigger] res[b]) by {
            assert(res[b] == inner[b - head.len()]);
            if a >= head.len() {
                assert(res[a] == inner[a - head.len()]);
            }
        }
    }
}

/// The post-merge report, in terms of the merges given: a merge is reported exactly when
/// its verdict is `Failing` and no merge of the same repository that sorts before it
/// (newer, or equally new and given earlier) has a settled verdict. Every reported merge
/// is `Failing`, and no repository is reported twice. So a passing rebuild supersedes
/// older failures, while a newer merge still waiting for CI, or without a merge commit,
/// never hides one.
pub proof fn lemma_post_merge_report(ms: Seq<MergedPullRequest>, r: Seq<MergedPullRequest>)
    requires
        ms.len() <= usize::MAX,
        is_latest_failing(ms, r),
    ensures
        forall|k: int| 0 <= k < r.len() ==> exists|i: int|
            0 <= i < ms.len() && #[trigger] r[k] == ms[i] && newest_settled(ms, i),
        forall|k: int| 0 <= k < r.len() ==> (#[trigger] r[k]).verdict_of() == Verdict::Failing,
        forall|i: int|
            0 <= i < ms.len() && newest_settled(ms, i) && #[trigger] ms[i].verdict_of() == Verdict::Failing
                ==> exists|k: int| 0 <= k < r.len() && #[trigger] r[k] == ms[i],
        forall|a: int, b: int| 0 <= a < b < r.len() ==> repo_of(#[trigger] r[a]) != repo_of(#[trigger] r[b]),
{
    let keys = merged_at_keys(ms);
    let order = choose|order: Seq<usize>|
        is_sorted_permutation(keys, true, order) && r == scan_latest(#[trigger] arranged(ms, order), Set::empty());
    let s = arranged(ms, order);
    lemma_scan_sound(s, Set::empty());
    lemma_scan_complete(s, Set::empty());
    lemma_scan_distinct(s, Set::empty());
    // Position p of s decides its repository exactly when order[p] is the newest settled
    // merge of its repository among ms.
    assert forall|p: int| 0 <= p < s.len() implies (decides_repo(s, p) <==> newest_settled(ms, order[p] as int)) by {
        let i = order[p] as int;
        assert(s[p] == ms[i]);
        if decides_repo(s, p) {
            assert forall|j: int| 0 <= j < ms.len() && j != i && repo_of(#[trigger] ms[j]) == repo_of(ms[i])
                && index_before(keys, true, j, i) implies !settled(ms[j]) by {
                assert(order.contains(j as usize));
                let q = choose|q: int| 0 <= q < order.len() && order[q] == j as usize;
                assert(s[q] == ms[j]);
                if q > p {
                    lemma_index_before_order(keys, true, i, j, i);
                } else if q == p {
                } else {
                }
            }
        }
        if newest_settled(ms, i) {
            assert forall|q: int| 0 <= q < p && repo_of(#[trigger] s[q]) == repo_of(s[p]) implies !settled(s[q]) by {
                let j = order[q] as int;
                assert(s[q] == ms[j]);
                assert(index_before(keys, true, j, i));
                lemma_index_before_order(keys, true, j, j, j);
            }
        }
    }
    assert forall|k: int| 0 <= k < r.len() implies exists|i: int|
        0 <= i < ms.len() && #[trigger] r[k] == ms[i] && newest_settled(ms, i) by {
        assert(decisive_failure_in(s, Set::empty(), r[k]));
        let p = choose|p: int|
            #![trigger s[p]]
            0 <= p < s.len() && s[p] == r[k] && !Set::<Seq<char>>::empty().contains(repo_of(s[p])) && decides_repo(s, p)
                && s[p].verdict_of() == Verdict::Failing;
        assert(r[k] == ms[order[p] as int]);
    }
    assert forall|k: int| 0 <= k < r.len() implies (#[trigger] r[k]).verdict_of() == Verdict::Failing by {
        assert(decisive_failure_in(s, Set::empty(), r[k]));
    }
    assert forall|i: int|
        0 <= i < ms.len() && newest_settled(ms, i) && #[trigger] ms[i].verdict_of() == Verdict::Failing
            implies exists|k: int| 0 <= k < r.len() && #[trigger] r[k] == ms[i] by {
        assert(order.contains(i as usize));
        let p = choose|p: int| 0 <= p < order.len() && order[p] == i as usize;
        assert(s[p] == ms[i]);
        assert(s[p].verdict_of() == Verdict::Failing);
    }
}

/// The post-merge report is fully determined by the merges given: two reports that both
/// meet the contract of [`latest_failing_per_repo`] for the same merges are equal.
pub proof fn lemma_post_merge_report_determined(
    ms: Seq<MergedPullRequest>,
    r1: Seq<MergedPullRequest>,
    r2: Seq<MergedPullRequest>,
)
    requires
        is_latest_failing(ms, r1),
        is_latest_failing(ms, r2),
    ensures
        r1 == r2,
{
    let keys = merged_at_keys(ms);
    let o1 = choose|order: Seq<usize>|
        is_sorted_permutation(keys, true, order) && r1 == scan_latest(#[trigger] arranged(ms, order), Set::empty());
    let o2 = choose|order: Seq<usize>|
        is_sorted_permutation(keys, true, order) && r2 == scan_latest(#[trigger] arranged(ms, order), Set::empty());
    lemma_sorted_permutation_unique(keys, true, o1, o2);
}

/// Whether `ms[i]` is settled and no other merge of its repository that sorts before it
/// (newer, or equally new and given earlier) is settled.
pub open spec fn newest_settled(ms: Seq<MergedPullRequest>, i: int) -> bool {
    &&& settled(ms[i])
    &&& forall|j: int|
        0 <= j < ms.len() && j != i && repo_of(#[trigger] ms[j]) == repo_of(ms[i]) && index_before(
            merged_at_keys(ms),
            true,
            j,
            i,
        ) ==> !settled(ms[j])
}

/// Whether `chrono` accepts `s` as an RFC 3339 timestamp.
pub uninterp spec fn is_rfc3339(s: Seq<char>) -> bool;

/// `chrono::DateTime::parse_from_rfc3339` on `s` and, when it parses, the whole seconds
/// from that instant to `Utc::now()` (`signed_duration_since(..).num_seconds()`).
/// Claimed: a result is returned exactly when the text parses, a fixed function of the
/// text named [`is_rfc3339`]. The number of seconds depends on the clock and is not
/// stated.
#[verifier::external_body]
fn seconds_since_rfc3339(s: &str) -> (r: Option<i64>)
    ensures
        r is Some <==> is_rfc3339(s@),
{
    match DateTime::parse_from_rfc3339(s) {
        Ok(t) => Some(Utc::now().signed_duration_since(t.with_timezone(&Utc)).num_seconds()),
        Err(_) => None,
    }
}

/// How an age of `secs` whole seconds is shown: whole days, else whole hours, else whole
/// minutes (never negative).
pub open spec fn age_text(secs: int) -> Seq<char> {
    if secs >= 86400 {
        decimal((secs / 86400) as nat).push('d')
    } else if secs >= 3600 {
        decimal((secs / 3600) as nat).push('h')
    } else if secs >= 60 {
        decimal((secs / 60) as nat).push('m')
    } else {
        decimal(0).push('m')
    }
}

/// The label for an age of `secs` whole seconds.
pub fn age_label(secs: i64) -> (r: String)
    ensures
        r@ == age_text(secs as int),
{
    if secs >= 86400 {
        let mut r = decimal_string((secs / 86400) as u64);
        push_char(&mut r, 'd');
        r
    } else if secs >= 3600 {
        let mut r = decimal_string((secs / 3600) as u64);
        push_char(&mut r, 'h');
        r
    } else if secs >= 60 {
        let mut r = decimal_string((secs / 60) as u64);
        push_char(&mut r, 'm');
        r
    } else {
        let mut r = decimal_string(0);
        push_char(&mut r, 'm');
        r
    }
}

/// How long ago `created_at` was, as a short label; `?` when it is not a timestamp.
pub fn humanize_age(created_at: &str) -> (r: String)
    ensures
        !is_rfc3339(created_at@) ==> r@ == seq!['?'],
        is_rfc3339(created_at@) ==> exists|secs: i64| r@ == age_text(secs as int),
{
    match seconds_since_rfc3339(created_at) {
        Some(secs) => age_label(secs),
        None => {
            let mut r = String::new();
            push_char(&mut r, '?');
            r
        },
    }
}

/// The `#123` label of a pull request number.
pub open spec fn number_text(n: u32) -> Seq<char> {
    seq!['#'] + decimal(n as nat)
}

/// The `#123` label of a pull request number.
pub fn number_label(n: u32) -> (r: String)
    ensures
        r@ == number_text(n),
{
    let mut r = String::new();
    push_char(&mut r, '#');
    let d = decimal_string(n as u64);
    push_all(&mut r, d.as_str());
    r
}

/// The cells of one row of the open-PR table: repository, number, title (cut to 60
/// characters, with the draft marker), author, status, mergeability and age. Every cell
/// holding remote text is encoded; the status and merge cells encode their remote input
/// themselves, before applying the tool's own colours.
pub fn table_row(pr: &PullRequest) -> (r: Vec<String>)
    ensures
        r@.len() == 7,
        r@[0]@ == sanitized(pr.repository.name_with_owner@),
        r@[1]@ == sanitized(number_text(pr.number)),
        r@[2]@ == sanitized(truncated(pr.title@, 60) + draft_text(*pr)),
        r@[3]@ == sanitized(pr.login_of()),
        r@[4]@ == status_text(pr.rollup_of()),
        r@[5]@ == merge_text(pr.mergeable@),
        !is_rfc3339(pr.created_at@) ==> r@[6]@ == sanitized(seq!['?']),
        is_rfc3339(pr.created_at@) ==> exists|secs: i64| r@[6]@ == sanitized(age_text(secs as int)),
        is_inert(r@[0]@) && is_inert(r@[1]@) && is_inert(r@[2]@) && is_inert(r@[3]@) && is_inert(r@[6]@),
        only_own_controls(r@[4]@) && only_own_controls(r@[5]@),
{
    let mut row: Vec<String> = Vec::new();
    row.push(sanitize(pr.repository.name_with_owner.as_str()));
    let num = number_label(pr.number);
    row.push(sanitize(num.as_str()));
    let mut title = truncate(pr.title.as_str(), 60);
    push_all(&mut title, draft_marker(pr));
    row.push(sanitize(title.as_str()));
    row.push(sanitize(pr.author_login()));
    row.push(status_cell(pr));
    row.push(merge_cell(pr));
    let age = humanize_age(pr.created_at.as_str());
    row.push(sanitize(age.as_str()));
    row
}

/// Sort keys for the open-PR table: failing first, then repository, then number.
pub open spec fn open_pr_keys(prs: Seq<PullRequest>) -> Seq<(u8, Seq<char>, u32)> {
    Seq::new(
        prs.len(),
        |i: int|
            (
                if prs[i].verdict_of() == Verdict::Failing {
                    0u8
                } else {
                    1u8
                },
                prs[i].repository.name_with_owner@,
                prs[i].number,
            ),
    )
}

/// The order in which open PRs are listed: failing ones first, then by repository and
/// number; equal keys keep their input order.
pub fn display_order(prs: &Vec<PullRequest>) -> (r: Vec<usize>)
    ensures
        is_sorted_permutation(open_pr_keys(prs@), false, r@),
        forall|a: int, b: int|
            0 <= a < b < r@.len() && prs@[#[trigger] r@[b] as int].verdict_of() == Verdict::Failing
                ==> prs@[#[trigger] r@[a] as int].verdict_of() == Verdict::Failing,
        forall|a: int, b: int|
            0 <= a < b < r@.len() && (prs@[#[trigger] r@[a] as int].verdict_of() == Verdict::Failing)
                == (prs@[#[trigger] r@[b] as int].verdict_of() == Verdict::Failing) ==> text_lt(
                prs@[r@[a] as int].repository.name_with_owner@,
                prs@[r@[b] as int].repository.name_with_owner@,
            ) || (prs@[r@[a] as int].repository.name_with_owner@ == prs@[r@[b] as int].repository.name_with_owner@
                && prs@[r@[a] as int].number <= prs@[r@[b] as int].number),
{
    let mut keys: Vec<SortKey> = Vec::new();
    let mut i: usize = 0;
    while i < prs.len()
        invariant
            i <= prs@.len(),
            keys@.len() == i,
            forall|k: int| 0 <= k < i ==> #[trigger] keys@[k]@ == open_pr_keys(prs@)[k],
        decreases prs@.len() - i,
    {
        let rank: u8 = if prs[i].is_failing() {
            0
        } else {
            1
        };
        keys.push(SortKey { rank, text: chars_of(prs[i].repository.name_with_owner.as_str()), number: prs[i].number });
        i = i + 1;
    }
    assert(key_views(keys@) =~= open_pr_keys(prs@));
    let r = sort_indices(&keys, false);
    proof {
        lemma_display_order(prs@, r@);
    }
    r
}

/// Sort keys for the post-merge report: repository, then number.
pub open spec fn merged_keys(prs: Seq<MergedPullRequest>) -> Seq<(u8, Seq<char>, u32)> {
    Seq::new(prs.len(), |i: int| (0u8, prs[i].repository.name_with_owner@, prs[i].number))
}

/// The order in which post-merge failures are listed: by repository and number; equal
/// keys keep their input order.
pub fn post_merge_order(prs: &Vec<MergedPullRequest>) -> (r: Vec<usize>)
    ensures
        is_sorted_permutation(merged_keys(prs@), false, r@),
{
    let mut keys: Vec<SortKey> = Vec::new();
    let mut i: usize = 0;
    while i < prs.len()
        invariant
            i <= prs@.len(),
            keys@.len() == i,
            forall|k: int| 0 <= k < i ==> #[trigger] keys@[k]@ == merged_keys(prs@)[k],
        decreases prs@.len() - i,
    {
        keys.push(SortKey { rank: 0, text: chars_of(prs[i].repository.name_with_owner.as_str()), number: prs[i].number });
        i = i + 1;
    }
    assert(key_views(keys@) =~= merged_keys(prs@));
    sort_indices(&keys, false)
}

/// The counts in the summary line under the open-PR table.
pub struct OpenSummary {
    pub total: usize,
    pub failing: usize,
    pub conflicting: usize,
    pub bots: usize,
}

/// The number of PRs among `prs` that are failing.
pub open spec fn count_failing(prs: Seq<PullRequest>) -> nat
    decreases prs.len(),
{
    if prs.len() == 0 {
        0
    } else {
        count_failing(prs.drop_last()) + if prs.last().verdict_of() == Verdict::Failing {
            1nat
        } else {
            0nat
        }
    }
}

/// The number of PRs among `prs` whose mergeable state is `CONFLICTING`.
pub open spec fn count_conflicting(prs: Seq<PullRequest>) -> nat
    decreases prs.len(),
{
    if prs.len() == 0 {
        0
    } else {
        count_conflicting(prs.drop_last()) + if prs.last().mergeable@ == "CONFLICTING"@ {
            1nat
        } else {
            0nat
        }
    }
}

/// The number of PRs among `prs` that come from bots.
pub open spec fn count_bots(prs: Seq<PullRequest>) -> nat
    decreases prs.len(),
{
    if prs.len() == 0 {
        0
    } else {
        count_bots(prs.drop_last()) + if prs.last().is_bot_of() {
            1nat
        } else {
            0nat
        }
    }
}

/// Count the open PRs, the failing ones, the conflicting ones and the ones from bots.
pub fn summarize(prs: &Vec<PullRequest>) -> (r: OpenSummary)
    ensures
        r.total == prs@.len(),
        r.failing == count_failing(prs@),
        r.conflicting == count_conflicting(prs@),
        r.bots == count_bots(prs@),
        r.failing == prs@.filter(with_verdict(Verdict::Failing)).len(),
        r.conflicting == prs@.filter(with_mergeable("CONFLICTING"@)).len(),
{
    proof {
        lemma_summary_counts(prs@);
    }
    let mut failing: usize = 0;
    let mut conflicting: usize = 0;
    let mut bots: usize = 0;
    let mut i: usize = 0;
    while i < prs.len()
        invariant
            i <= prs@.len(),
            failing == count_failing(prs@.take(i as int)),
            conflicting == count_conflicting(prs@.take(i as int)),
            bots == count_bots(prs@.take(i as int)),
            failing <= i && conflicting <= i && bots <= i,
        decreases prs@.len() - i,
    {
        assert(prs@.take(i + 1).drop_last() =~= prs@.take(i as int));
        if prs[i].is_failing() {
            failing = failing + 1;
        }
        if str_eq(prs[i].mergeable.as_str(), "CONFLICTING") {
            conflicting = conflicting + 1;
        }
        if prs[i].is_bot() {
            bots = bots + 1;
        }
        i = i + 1;
    }
    assert(prs@.take(prs@.len() as int) =~= prs@);
    OpenSummary { total: prs.len(), failing, conflicting, bots }
}

/// The closing line of the open-PR report.
pub open spec fn summary_text(s: OpenSummary) -> Seq<char> {
    decimal(s.total as nat) + " open PR(s) \u{2014} "@ + decimal(s.failing as nat) + " failing, "@ + decimal(
        s.conflicting as nat,
    ) + " conflicting, "@ + decimal(s.bots as nat) + " from bots"@
}

/// `N open PR(s) — F failing, C conflicting, B from bots`.
pub fn summary_line(s: &OpenSummary) -> (r: String)
    ensures
        r@ == summary_text(*s),
{
    let mut r = decimal_string(s.total as u64);
    push_all(&mut r, " open PR(s) \u{2014} ");
    let failing = decimal_string(s.failing as u64);
    push_all(&mut r, failing.as_str());
    push_all(&mut r, " failing, ");
    let conflicting = decimal_string(s.conflicting as u64);
    push_all(&mut r, conflicting.as_str());
    push_all(&mut r, " conflicting, ");
    let bots = decimal_string(s.bots as u64);
    push_all(&mut r, bots.as_str());
    push_all(&mut r, " from bots");
    r
}

/// Whether position `i` of `prs` exists and holds a failing pull request.
pub open spec fn failing_at(prs: Seq<PullRequest>) -> spec_fn(usize) -> bool {
    |i: usize| i < prs.len() && prs[i as int].verdict_of() == Verdict::Failing
}

/// Whether position `i` of `prs` exists and holds a pull request that conflicts.
pub open spec fn conflicting_at(prs: Seq<PullRequest>) -> spec_fn(usize) -> bool {
    |i: usize| i < prs.len() && prs[i as int].mergeability_of() == Mergeability::Conflicting
}

/// The entries of `order` (positions of `prs`, as [`display_order`] gives them) whose pull
/// request is failing, in the same order: the "Failing checks" section.
pub fn failing_entries(prs: &Vec<PullRequest>, order: &Vec<usize>) -> (r: Vec<usize>)
    ensures
        r@ == order@.filter(failing_at(prs@)),
        forall|k: int|
            0 <= k < r@.len() ==> #[trigger] r@[k] < prs@.len() && prs@[r@[k] as int].verdict_of() == Verdict::Failing,
        forall|k: int|
            0 <= k < order@.len() && order@[k] < prs@.len() && prs@[order@[k] as int].verdict_of() == Verdict::Failing
                ==> #[trigger] r@.contains(order@[k]),
{
    proof {
        lemma_failing_entries(prs@, order@);
    }
    let ghost keep = failing_at(prs@);
    let mut out: Vec<usize> = Vec::new();
    let mut k: usize = 0;
    while k < order.len()
        invariant
            k <= order@.len(),
            keep == failing_at(prs@),
            out@ == order@.take(k as int).filter(keep),
        decreases order@.len() - k,
    {
        proof {
            assert(order@.take(k + 1).drop_last() =~= order@.take(k as int));
            reveal_with_fuel(Seq::filter, 1);
        }
        let i = order[k];
        if i < prs.len() && prs[i].is_failing() {
            out.push(i);
        }
        k = k + 1;
    }
    assert(order@.take(order@.len() as int) =~= order@);
    out
}

/// The entries of `order` whose pull request conflicts, in the same order: the "Merge
/// conflicts" section.
pub fn conflicting_entries(prs: &Vec<PullRequest>, order: &Vec<usize>) -> (r: Vec<usize>)
    ensures
        r@ == order@.filter(conflicting_at(prs@)),
        forall|k: int|
            0 <= k < r@.len() ==> #[trigger] r@[k] < prs@.len() && prs@[r@[k] as int].mergeable@ == "CONFLICTING"@,
        forall|k: int|
            0 <= k < order@.len() && order@[k] < prs@.len() && prs@[order@[k] as int].mergeable@ == "CONFLICTING"@
                ==> #[trigger] r@.contains(order@[k]),
{
    proof {
        lemma_conflicting_entries(prs@, order@);
    }
    let ghost keep = conflicting_at(prs@);
    let mut out: Vec<usize> = Vec::new();
    let mut k: usize = 0;
    while k < order.len()
        invariant
            k <= order@.len(),
            keep == conflicting_at(prs@),
            out@ == order@.take(k as int).filter(keep),
        decreases order@.len() - k,
    {
        proof {
            assert(order@.take(k + 1).drop_last() =~= order@.take(k as int));
            reveal_with_fuel(Seq::filter, 1);
        }
        let i = order[k];
        if i < prs.len() && prs[i].mergeability() == Mergeability::Conflicting {
            out.push(i);
        }
        k = k + 1;
    }
    assert(order@.take(order@.len() as int) =~= order@);
    out
}

/// What the filters keep: only pull requests that pass them, every pull request that
/// passes them, nothing that was not given, in the given order. With `--failing`, every
/// pull request not known to be green is kept (unknown and failing alike), and no green
/// one.
pub proof fn lemma_filter_keeps(prs: Seq<PullRequest>, only_failing: bool, only_bot: bool, no_drafts: bool)
    ensures
        forall|k: int| 0 <= k < prs.filter(filter_predicate(only_failing, only_bot, no_drafts)).len()
            ==> passes_filters(#[trigger] prs.filter(filter_predicate(only_failing, only_bot, no_drafts))[k], only_failing, only_bot, no_drafts),
        forall|k: int| 0 <= k < prs.filter(filter_predicate(only_failing, only_bot, no_drafts)).len()
            ==> prs.contains(#[trigger] prs.filter(filter_predicate(only_failing, only_bot, no_drafts))[k]),
        forall|i: int| 0 <= i < prs.len() && passes_filters(prs[i], only_failing, only_bot, no_drafts)
            ==> #[trigger] prs.filter(filter_predicate(only_failing, only_bot, no_drafts)).contains(prs[i]),
        only_failing ==> forall|k: int| 0 <= k < prs.filter(filter_predicate(only_failing, only_bot, no_drafts)).len()
            ==> (#[trigger] prs.filter(filter_predicate(only_failing, only_bot, no_drafts))[k]).verdict_of() != Verdict::Passing,
{
    let pred = filter_predicate(only_failing, only_bot, no_drafts);
    let r = prs.filter(pred);
    assert forall|k: int| 0 <= k < r.len() implies passes_filters(#[trigger] r[k], only_failing, only_bot, no_drafts) by {
        prs.lemma_filter_pred(pred, k);
    }
    assert forall|k: int| 0 <= k < r.len() implies prs.contains(#[trigger] r[k]) by {
        assert(r.contains(r[k]));
        prs.lemma_filter_contains_rev(pred, r[k]);
    }
    assert forall|i: int| 0 <= i < prs.len() && passes_filters(prs[i], only_failing, only_bot, no_drafts) implies #[trigger] r.contains(prs[i]) by {
        prs.lemma_filter_contains(pred, i);
    }
}

/// Filtering by `p` and then by `q` is filtering by both at once.
proof fn lemma_filter_twice(s: Seq<PullRequest>, p: spec_fn(PullRequest) -> bool, q: spec_fn(PullRequest) -> bool, pq: spec_fn(PullRequest) -> bool)
    requires
        forall|x: PullRequest| #[trigger] pq(x) == (p(x) && q(x)),
    ensures
        s.filter(p).filter(q) == s.filter(pq),
    decreases s.len(),
{
    reveal_with_fuel(Seq::filter, 1);
    if s.len() > 0 {
        lemma_filter_twice(s.drop_last(), p, q, pq);
        let fp = s.drop_last().filter(p);
        if p(s.last()) {
            assert(s.filter(p) == fp.push(s.last()));
            assert(s.filter(p).drop_last() =~= fp);
        }
    }
}

/// Filtering by a predicate that holds everywhere keeps everything.
proof fn lemma_filter_everything(s: Seq<PullRequest>, p: spec_fn(PullRequest) -> bool)
    requires
        forall|x: PullRequest| #[trigger] p(x),
    ensures
        s.filter(p) == s,
    decreases s.len(),
{
    reveal_with_fuel(Seq::filter, 1);
    if s.len() > 0 {
        lemma_filter_everything(s.drop_last(), p);
        assert(s.drop_last().push(s.last()) =~= s);
    }
}

/// How the filters compose: with no flag set nothing is dropped; filtering a filtered
/// list again with the same flags changes nothing; and the flags act independently, so
/// filtering by bots alone and then by failing and drafts gives the same list as all
/// three at once.
pub proof fn lemma_filter_composition(prs: Seq<PullRequest>, only_failing: bool, only_bot: bool, no_drafts: bool)
    ensures
        prs.filter(filter_predicate(false, false, false)) == prs,
        prs.filter(filter_predicate(only_failing, only_bot, no_drafts)).filter(filter_predicate(only_failing, only_bot, no_drafts))
            == prs.filter(filter_predicate(only_failing, only_bot, no_drafts)),
        prs.filter(filter_predicate(false, only_bot, false)).filter(filter_predicate(only_failing, false, no_drafts))
            == prs.filter(filter_predicate(only_failing, only_bot, no_drafts)),
{
    let all = filter_predicate(only_failing, only_bot, no_drafts);
    lemma_filter_everything(prs, filter_predicate(false, false, false));
    lemma_filter_twice(prs, all, all, all);
    lemma_filter_twice(prs, filter_predicate(false, only_bot, false), filter_predicate(only_failing, false, no_drafts), all);
}

/// Whether `x` is a merge of `ms` that is the newest settled merge of its repository
/// and is `Failing`.
pub open spec fn reported_in(ms: Seq<MergedPullRequest>, x: MergedPullRequest) -> bool {
    exists|i: int|
        #![trigger ms[i]]
        0 <= i < ms.len() && ms[i] == x && newest_settled(ms, i) && x.verdict_of() == Verdict::Failing
}

/// A report holds exactly the merges [`reported_in`] its input.
proof fn lemma_report_membership(ms: Seq<MergedPullRequest>, r: Seq<MergedPullRequest>)
    requires
        ms.len() <= usize::MAX,
        is_latest_failing(ms, r),
    ensures
        forall|x: MergedPullRequest| r.contains(x) <==> reported_in(ms, x),
{
    lemma_post_merge_report(ms, r);
    assert forall|x: MergedPullRequest| r.contains(x) <==> reported_in(ms, x) by {
        if r.contains(x) {
            let k = choose|k: int| 0 <= k < r.len() && r[k] == x;
            let i = choose|i: int| 0 <= i < ms.len() && #[trigger] r[k] == ms[i] && newest_settled(ms, i);
            assert(r[k].verdict_of() == Verdict::Failing);
            assert(ms[i] == x);
        }
        if reported_in(ms, x) {
            let i = choose|i: int|
                #![trigger ms[i]]
                0 <= i < ms.len() && ms[i] == x && newest_settled(ms, i) && x.verdict_of() == Verdict::Failing;
            let k = choose|k: int| 0 <= k < r.len() && #[trigger] r[k] == ms[i];
            assert(r[k] == x);
        }
    }
}

/// A report names no merge twice: in its multiset, a merge counts once when the report
/// holds it and not at all otherwise.
proof fn lemma_report_counts(ms: Seq<MergedPullRequest>, r: Seq<MergedPullRequest>)
    requires
        ms.len() <= usize::MAX,
        is_latest_failing(ms, r),
    ensures
        forall|x: MergedPullRequest| #[trigger] r.to_multiset().count(x) == if r.contains(x) {
            1nat
        } else {
            0nat
        },
{
    lemma_post_merge_report(ms, r);
    assert forall|i: int, j: int| 0 <= i < r.len() && 0 <= j < r.len() && i != j implies r[i] != r[j] by {
        if i < j {
            assert(repo_of(r[i]) != repo_of(r[j]));
        } else {
            assert(repo_of(r[j]) != repo_of(r[i]));
        }
    }
    assert(r.no_duplicates());
    r.lemma_multiset_has_no_duplicates();
    assert forall|x: MergedPullRequest| #[trigger] r.to_multiset().count(x) == if r.contains(x) {
        1nat
    } else {
        0nat
    } by {
        vstd::seq_lib::to_multiset_contains(r, x);
    }
}

/// Whether no repository has merges in both `a` and `b`.
pub open spec fn share_no_repo(a: Seq<MergedPullRequest>, b: Seq<MergedPullRequest>) -> bool {
    forall|i: int, j: int| 0 <= i < a.len() && 0 <= j < b.len() ==> repo_of(#[trigger] a[i]) != repo_of(#[trigger] b[j])
}

/// Whether a merge is the newest settled one of its repository does not depend on the
/// merges of other repositories.
proof fn lemma_newest_settled_concat(a: Seq<MergedPullRequest>, b: Seq<MergedPullRequest>)
    requires
        share_no_repo(a, b),
    ensures
        forall|i: int| 0 <= i < a.len() ==> (newest_settled(a + b, i) <==> #[trigger] newest_settled(a, i)),
        forall|i: int| 0 <= i < b.len() ==> (newest_settled(a + b, a.len() + i) <==> #[trigger] newest_settled(b, i)),
{
    let ab = a + b;
    let n = a.len() as int;
    let kab = merged_at_keys(ab);
    let ka = merged_at_keys(a);
    let kb = merged_at_keys(b);
    assert forall|i: int| 0 <= i < a.len() implies (newest_settled(ab, i) <==> #[trigger] newest_settled(a, i)) by {
        assert(ab[i] == a[i]);
        if newest_settled(a, i) {
            assert forall|j: int|
                0 <= j < ab.len() && j != i && repo_of(#[trigger] ab[j]) == repo_of(ab[i]) && index_before(kab, true, j, i)
                implies !settled(ab[j]) by {
                if j >= n {
                    assert(ab[j] == b[j - n]);
                    assert(repo_of(a[i]) != repo_of(b[j - n]));
                } else {
                    assert(ab[j] == a[j]);
                    assert(kab[j] == ka[j] && kab[i] == ka[i]);
                }
            }
        }
        if newest_settled(ab, i) {
            assert forall|j: int|
                0 <= j < a.len() && j != i && repo_of(#[trigger] a[j]) == repo_of(a[i]) && index_before(ka, true, j, i)
                implies !settled(a[j]) by {
                assert(ab[j] == a[j]);
                assert(kab[j] == ka[j] && kab[i] == ka[i]);
            }
        }
    }
    assert forall|i: int| 0 <= i < b.len() implies (newest_settled(ab, n + i) <==> #[trigger] newest_settled(b, i)) by {
        assert(ab[n + i] == b[i]);
        if newest_settled(b, i) {
            assert forall|j: int|
                0 <= j < ab.len() && j != n + i && repo_of(#[trigger] ab[j]) == repo_of(ab[n + i]) && index_before(kab, true, j, n + i)
                implies !settled(ab[j]) by {
                if j < n {
                    assert(ab[j] == a[j]);
                    assert(repo_of(a[j]) != repo_of(b[i]));
                } else {
                    assert(ab[j] == b[j - n]);
                    assert(kab[j] == kb[j - n] && kab[n + i] == kb[i]);
                }
            }
        }
        if newest_settled(ab, n + i) {
            assert forall|j: int|
                0 <= j < b.len() && j != i && repo_of(#[trigger] b[j]) == repo_of(b[i]) && index_before(kb, true, j, i)
                implies !settled(b[j]) by {
                assert(ab[n + j] == b[j]);
                assert(kab[n + j] == kb[j] && kab[n + i] == kb[i]);
            }
        }
    }
}

/// One repository's merges never hide or add another repository's report: for two lists
/// of merges that share no repository, the report on both together holds exactly what
/// the two reports on each alone hold, each merge as many times (once) as there.
pub proof fn lemma_post_merge_repos_independent(
    a: Seq<MergedPullRequest>,
    b: Seq<MergedPullRequest>,
    ra: Seq<MergedPullRequest>,
    rb: Seq<MergedPullRequest>,
    rab: Seq<MergedPullRequest>,
)
    requires
        share_no_repo(a, b),
        a.len() + b.len() <= usize::MAX,
        is_latest_failing(a, ra),
        is_latest_failing(b, rb),
        is_latest_failing(a + b, rab),
    ensures
        forall|x: MergedPullRequest| rab.contains(x) <==> (ra.contains(x) || rb.contains(x)),
        rab.to_multiset() == ra.to_multiset().add(rb.to_multiset()),
{
    let ab = a + b;
    let n = a.len() as int;
    lemma_report_membership(a, ra);
    lemma_report_membership(b, rb);
    lemma_report_membership(ab, rab);
    lemma_newest_settled_concat(a, b);
    assert forall|x: MergedPullRequest| reported_in(ab, x) <==> (reported_in(a, x) || reported_in(b, x)) by {
        if reported_in(ab, x) {
            let i = choose|i: int|
                #![trigger ab[i]]
                0 <= i < ab.len() && ab[i] == x && newest_settled(ab, i) && x.verdict_of() == Verdict::Failing;
            if i < n {
                assert(ab[i] == a[i]);
                assert(newest_settled(a, i));
            } else {
                assert(ab[i] == b[i - n]);
                assert(newest_settled(b, i - n));
            }
        }
        if reported_in(a, x) {
            let i = choose|i: int|
                #![trigger a[i]]
                0 <= i < a.len() && a[i] == x && newest_settled(a, i) && x.verdict_of() == Verdict::Failing;
            assert(ab[i] == a[i]);
            assert(newest_settled(ab, i));
        }
        if reported_in(b, x) {
            let i = choose|i: int|
                #![trigger b[i]]
                0 <= i < b.len() && b[i] == x && newest_settled(b, i) && x.verdict_of() == Verdict::Failing;
            assert(ab[n + i] == b[i]);
            assert(newest_settled(ab, n + i));
        }
    }
    lemma_report_counts(a, ra);
    lemma_report_counts(b, rb);
    lemma_report_counts(ab, rab);
    assert forall|x: MergedPullRequest| #[trigger] rab.to_multiset().count(x) == ra.to_multiset().add(
        rb.to_multiset(),
    ).count(x) by {
        broadcast use vstd::multiset::group_multiset_axioms;

        if ra.contains(x) && rb.contains(x) {
            let i = choose|i: int|
                #![trigger a[i]]
                0 <= i < a.len() && a[i] == x && newest_settled(a, i) && x.verdict_of() == Verdict::Failing;
            let j = choose|j: int|
                #![trigger b[j]]
                0 <= j < b.len() && b[j] == x && newest_settled(b, j) && x.verdict_of() == Verdict::Failing;
            assert(repo_of(a[i]) != repo_of(b[j]));
        }
    }
    assert(rab.to_multiset() =~= ra.to_multiset().add(rb.to_multiset()));
}


/// The merges of repository `r`.
pub open spec fn in_repo(r: Seq<char>) -> spec_fn(MergedPullRequest) -> bool {
    |m: MergedPullRequest| repo_of(m) == r
}

/// The positions of `s` that hold a merge of repository `r`, in increasing order.
pub open spec fn repo_positions(s: Seq<MergedPullRequest>, r: Seq<char>) -> Seq<int>
    decreases s.len(),
{
    if s.len() == 0 {
        seq![]
    } else if repo_of(s.last()) == r {
        repo_positions(s.drop_last(), r).push(s.len() - 1)
    } else {
        repo_positions(s.drop_last(), r)
    }
}

/// `s.filter(in_repo(r))` is `s` at the positions [`repo_positions`] lists, and those
/// positions are increasing and cover every merge of `r`.
proof fn lemma_repo_positions(s: Seq<MergedPullRequest>, r: Seq<char>)
    ensures
        repo_positions(s, r).len() == s.filter(in_repo(r)).len(),
        forall|q: int|
            0 <= q < repo_positions(s, r).len() ==> 0 <= #[trigger] repo_positions(s, r)[q] < s.len()
                && s.filter(in_repo(r))[q] == s[repo_positions(s, r)[q]],
        forall|a: int, b: int|
            0 <= a < b < repo_positions(s, r).len() ==> #[trigger] repo_positions(s, r)[a]
                < #[trigger] repo_positions(s, r)[b],
        forall|i: int|
            0 <= i < s.len() && repo_of(#[trigger] s[i]) == r ==> exists|q: int|
                0 <= q < repo_positions(s, r).len() && #[trigger] repo_positions(s, r)[q] == i,
    decreases s.len(),
{
    reveal_with_fuel(Seq::filter, 1);
    if s.len() > 0 {
        let t = s.drop_last();
        let n = t.len() as int;
        lemma_repo_positions(t, r);
        let gt = repo_positions(t, r);
        let g = repo_positions(s, r);
        let ft = t.filter(in_repo(r));
        let f = s.filter(in_repo(r));
        assert forall|i: int| 0 <= i < n implies #[trigger] t[i] == s[i] by {}
        if repo_of(s.last()) == r {
            assert(f == ft.push(s.last()));
            assert(g == gt.push(n));
            assert forall|q: int| 0 <= q < g.len() implies 0 <= #[trigger] g[q] < s.len() && f[q] == s[g[q]] by {
                if q < gt.len() {
                    assert(g[q] == gt[q]);
                    assert(f[q] == ft[q]);
                    assert(t[gt[q]] == s[gt[q]]);
                }
            }
            assert forall|i: int| 0 <= i < s.len() && repo_of(#[trigger] s[i]) == r implies exists|q: int|
                0 <= q < g.len() && #[trigger] g[q] == i by {
                if i < n {
                    assert(t[i] == s[i]);
                    let q = choose|q: int| 0 <= q < gt.len() && #[trigger] gt[q] == i;
                    assert(g[q] == i);
                } else {
                    assert(g[gt.len() as int] == i);
                }
            }
        } else {
            assert(f == ft);
            assert(g == gt);
            assert forall|q: int| 0 <= q < g.len() implies 0 <= #[trigger] g[q] < s.len() && f[q] == s[g[q]] by {
                assert(t[gt[q]] == s[gt[q]]);
            }
            assert forall|i: int| 0 <= i < s.len() && repo_of(#[trigger] s[i]) == r implies exists|q: int|
                0 <= q < g.len() && #[trigger] g[q] == i by {
                assert(i < n);
                assert(t[i] == s[i]);
            }
        }
    }
}

/// Whether a merge of repository `r` is the newest settled one of its repository does
/// not change when merges are dropped, as long as every merge of `r` is kept, in order:
/// `t` is `s` at the increasing positions `g`.
proof fn lemma_newest_settled_embedding(
    s: Seq<MergedPullRequest>,
    t: Seq<MergedPullRequest>,
    g: Seq<int>,
    r: Seq<char>,
)
    requires
        g.len() == t.len(),
        forall|q: int| 0 <= q < t.len() ==> 0 <= #[trigger] g[q] < s.len() && t[q] == s[g[q]],
        forall|a: int, b: int| 0 <= a < b < g.len() ==> #[trigger] g[a] < #[trigger] g[b],
        forall|i: int|
            0 <= i < s.len() && repo_of(#[trigger] s[i]) == r ==> exists|q: int| 0 <= q < g.len() && #[trigger] g[q] == i,
    ensures
        forall|q: int|
            0 <= q < t.len() && repo_of(t[q]) == r ==> (newest_settled(t, q) <==> newest_settled(s, #[trigger] g[q])),
{
    let ks = merged_at_keys(s);
    let kt = merged_at_keys(t);
    assert forall|q: int| 0 <= q < t.len() && repo_of(t[q]) == r implies (newest_settled(t, q) <==> newest_settled(
        s,
        #[trigger] g[q],
    )) by {
        let i = g[q];
        assert(kt[q] == ks[i]);
        if newest_settled(s, i) {
            assert forall|j: int|
                0 <= j < t.len() && j != q && repo_of(#[trigger] t[j]) == repo_of(t[q]) && index_before(kt, true, j, q)
                implies !settled(t[j]) by {
                assert(t[j] == s[g[j]]);
                assert(kt[j] == ks[g[j]]);
                if j < q {
                    assert(g[j] < g[q]);
                } else {
                    assert(g[q] < g[j]);
                }
            }
        }
        if newest_settled(t, q) {
            assert forall|j: int|
                0 <= j < s.len() && j != i && repo_of(#[trigger] s[j]) == repo_of(s[i]) && index_before(ks, true, j, i)
                implies !settled(s[j]) by {
                let q1 = choose|q1: int| 0 <= q1 < g.len() && #[trigger] g[q1] == j;
                assert(t[q1] == s[j]);
                assert(kt[q1] == ks[j]);
                if q1 < q {
                    assert(g[q1] < g[q]);
                } else if q1 > q {
                    assert(g[q] < g[q1]);
                }
            }
        }
    }
}

/// A list whose elements are of pairwise different repositories has at most one of
/// repository `r`.
proof fn lemma_one_per_repo(s: Seq<MergedPullRequest>, r: Seq<char>)
    requires
        forall|a: int, b: int| 0 <= a < b < s.len() ==> repo_of(#[trigger] s[a]) != repo_of(#[trigger] s[b]),
    ensures
        s.filter(in_repo(r)).len() <= 1,
    decreases s.len(),
{
    reveal_with_fuel(Seq::filter, 1);
    if s.len() > 0 {
        let t = s.drop_last();
        assert forall|a: int, b: int| 0 <= a < b < t.len() implies repo_of(#[trigger] t[a]) != repo_of(#[trigger] t[b]) by {
            assert(t[a] == s[a] && t[b] == s[b]);
        }
        lemma_one_per_repo(t, r);
        let ft = t.filter(in_repo(r));
        if repo_of(s.last()) == r && ft.len() > 0 {
            t.lemma_filter_pred(in_repo(r), 0);
            assert(ft.contains(ft[0]));
            t.lemma_filter_contains_rev(in_repo(r), ft[0]);
            let k = choose|k: int| 0 <= k < t.len() && t[k] == ft[0];
            assert(s[k] == t[k]);
            assert(repo_of(s[k]) != repo_of(s[s.len() - 1]));
        }
    }
}

/// A merge is in the full report and of repository `r` exactly when it is in the report
/// on `r`'s merges alone.
proof fn lemma_restriction_membership(
    ms: Seq<MergedPullRequest>,
    r: Seq<char>,
    report: Seq<MergedPullRequest>,
    own: Seq<MergedPullRequest>,
)
    requires
        ms.len() <= usize::MAX,
        is_latest_failing(ms, report),
        is_latest_failing(ms.filter(in_repo(r)), own),
    ensures
        forall|x: MergedPullRequest| report.filter(in_repo(r)).contains(x) <==> own.contains(x),
{
    let p = in_repo(r);
    let f = ms.filter(p);
    ms.lemma_filter_len(p);
    lemma_report_membership(ms, report);
    lemma_report_membership(f, own);
    lemma_repo_positions(ms, r);
    let g = repo_positions(ms, r);
    lemma_newest_settled_embedding(ms, f, g, r);
    let u = report.filter(p);
    assert forall|x: MergedPullRequest| u.contains(x) <==> own.contains(x) by {
        if u.contains(x) {
            let k = choose|k: int| 0 <= k < u.len() && u[k] == x;
            report.lemma_filter_pred(p, k);
            report.lemma_filter_contains_rev(p, x);
            let i = choose|i: int|
                #![trigger ms[i]]
                0 <= i < ms.len() && ms[i] == x && newest_settled(ms, i) && x.verdict_of() == Verdict::Failing;
            let q = choose|q: int| 0 <= q < g.len() && #[trigger] g[q] == i;
            assert(f[q] == x);
            assert(newest_settled(f, q));
            assert(reported_in(f, x));
        }
        if own.contains(x) {
            let q = choose|q: int|
                #![trigger f[q]]
                0 <= q < f.len() && f[q] == x && newest_settled(f, q) && x.verdict_of() == Verdict::Failing;
            ms.lemma_filter_pred(p, q);
            assert(ms[g[q]] == x);
            assert(newest_settled(ms, g[q]));
            assert(reported_in(ms, x));
            let k = choose|k: int| 0 <= k < report.len() && report[k] == x;
            report.lemma_filter_contains(p, k);
        }
    }
}

/// The report on merges of a single repository holds at most one merge.
proof fn lemma_single_repo_report(f: Seq<MergedPullRequest>, r: Seq<char>, own: Seq<MergedPullRequest>)
    requires
        f.len() <= usize::MAX,
        forall|q: int| 0 <= q < f.len() ==> repo_of(#[trigger] f[q]) == r,
        is_latest_failing(f, own),
    ensures
        own.len() <= 1,
{
    lemma_post_merge_report(f, own);
    if own.len() > 1 {
        let i0 = choose|i: int| 0 <= i < f.len() && #[trigger] own[0] == f[i] && newest_settled(f, i);
        let i1 = choose|i: int| 0 <= i < f.len() && #[trigger] own[1] == f[i] && newest_settled(f, i);
        assert(repo_of(f[i0]) == repo_of(f[i1]));
        assert(repo_of(own[0]) != repo_of(own[1]));
    }
}

/// The report on one repository's merges alone is the full report restricted to that
/// repository: what is reported for a repository depends on its own merges only, so one
/// red repository never hides, and is never hidden by, another.
pub proof fn lemma_post_merge_repo_restriction(
    ms: Seq<MergedPullRequest>,
    r: Seq<char>,
    report: Seq<MergedPullRequest>,
    own: Seq<MergedPullRequest>,
)
    requires
        ms.len() <= usize::MAX,
        is_latest_failing(ms, report),
        is_latest_failing(ms.filter(in_repo(r)), own),
    ensures
        report.filter(in_repo(r)) == own,
{
    let p = in_repo(r);
    let f = ms.filter(p);
    let u = report.filter(p);
    lemma_restriction_membership(ms, r, report, own);
    assert(f.len() <= usize::MAX) by {
        ms.lemma_filter_len(p);
    }
    assert forall|q: int| 0 <= q < f.len() implies repo_of(#[trigger] f[q]) == r by {
        ms.lemma_filter_pred(p, q);
    }
    lemma_single_repo_report(f, r, own);
    assert(u.len() <= 1) by {
        lemma_post_merge_report(ms, report);
        lemma_one_per_repo(report, r);
    }
    if u.len() == 1 {
        assert(u.contains(u[0]));
        assert(own.contains(u[0]));
        let k = choose|k: int| 0 <= k < own.len() && own[k] == u[0];
        assert(k == 0 && own.len() == 1);
        assert(u =~= own);
    } else {
        if own.len() > 0 {
            assert(own.contains(own[0]));
        }
        assert(u =~= own);
    }
}


/// The pull requests whose `mergeable` field reads exactly `state`.
pub open spec fn with_mergeable(state: Seq<char>) -> spec_fn(PullRequest) -> bool {
    |p: PullRequest| p.mergeable@ == state
}

/// The pull requests whose verdict is `v`.
pub open spec fn with_verdict(v: Verdict) -> spec_fn(PullRequest) -> bool {
    |p: PullRequest| p.verdict_of() == v
}

/// What the summary counts: the failing count is the number of pull requests whose
/// verdict is `Failing` (a pending or unchecked one adds nothing), and the conflicting
/// count the number whose `mergeable` reads exactly `CONFLICTING` (one still `UNKNOWN`,
/// or `MERGEABLE`, adds nothing).
pub proof fn lemma_summary_counts(prs: Seq<PullRequest>)
    ensures
        count_failing(prs) == prs.filter(with_verdict(Verdict::Failing)).len(),
        count_conflicting(prs) == prs.filter(with_mergeable("CONFLICTING"@)).len(),
    decreases prs.len(),
{
    reveal_with_fuel(Seq::filter, 1);
    if prs.len() > 0 {
        lemma_summary_counts(prs.drop_last());
    }
}

/// How the open-PR table is ordered: every failing pull request comes before every
/// other one; among the failing ones, and among all the others alike (passing, pending
/// or without checks), rows go by repository name and then by number.
pub proof fn lemma_display_order(prs: Seq<PullRequest>, order: Seq<usize>)
    requires
        is_sorted_permutation(open_pr_keys(prs), false, order),
    ensures
        forall|a: int, b: int|
            0 <= a < b < order.len() && prs[#[trigger] order[b] as int].verdict_of() == Verdict::Failing
                ==> prs[#[trigger] order[a] as int].verdict_of() == Verdict::Failing,
        forall|a: int, b: int|
            0 <= a < b < order.len() && (prs[#[trigger] order[a] as int].verdict_of() == Verdict::Failing)
                == (prs[#[trigger] order[b] as int].verdict_of() == Verdict::Failing) ==> text_lt(
                prs[order[a] as int].repository.name_with_owner@,
                prs[order[b] as int].repository.name_with_owner@,
            ) || (prs[order[a] as int].repository.name_with_owner@ == prs[order[b] as int].repository.name_with_owner@
                && prs[order[a] as int].number <= prs[order[b] as int].number),
{
    let keys = open_pr_keys(prs);
    assert forall|a: int, b: int| 0 <= a < b < order.len() implies index_before(
        keys,
        false,
        #[trigger] order[a] as int,
        #[trigger] order[b] as int,
    ) && keys[order[a] as int] == (
        if prs[order[a] as int].verdict_of() == Verdict::Failing {
            0u8
        } else {
            1u8
        },
        prs[order[a] as int].repository.name_with_owner@,
        prs[order[a] as int].number,
    ) && keys[order[b] as int] == (
        if prs[order[b] as int].verdict_of() == Verdict::Failing {
            0u8
        } else {
            1u8
        },
        prs[order[b] as int].repository.name_with_owner@,
        prs[order[b] as int].number,
    ) by {}
}

/// The "Failing checks" section: every entry it lists is a position of a failing pull
/// request, and every entry of the order that names a failing pull request is listed.
pub proof fn lemma_failing_entries(prs: Seq<PullRequest>, order: Seq<usize>)
    ensures
        forall|k: int|
            0 <= k < order.filter(failing_at(prs)).len() ==> #[trigger] order.filter(failing_at(prs))[k]
                < prs.len() && prs[order.filter(failing_at(prs))[k] as int].verdict_of() == Verdict::Failing,
        forall|k: int|
            0 <= k < order.len() && order[k] < prs.len() && prs[order[k] as int].verdict_of() == Verdict::Failing
                ==> #[trigger] order.filter(failing_at(prs)).contains(order[k]),
{
    assert forall|k: int| 0 <= k < order.filter(failing_at(prs)).len() implies #[trigger] order.filter(
        failing_at(prs),
    )[k] < prs.len() && prs[order.filter(failing_at(prs))[k] as int].verdict_of() == Verdict::Failing by {
        order.lemma_filter_pred(failing_at(prs), k);
    }
    assert forall|k: int|
        0 <= k < order.len() && order[k] < prs.len() && prs[order[k] as int].verdict_of() == Verdict::Failing
            implies #[trigger] order.filter(failing_at(prs)).contains(order[k]) by {
        order.lemma_filter_contains(failing_at(prs), k);
    }
}

/// The "Merge conflicts" section: every entry it lists is a position of a pull request
/// whose `mergeable` reads `CONFLICTING`, and every entry of the order that names one is
/// listed.
pub proof fn lemma_conflicting_entries(prs: Seq<PullRequest>, order: Seq<usize>)
    ensures
        forall|k: int|
            0 <= k < order.filter(conflicting_at(prs)).len() ==> #[trigger] order.filter(conflicting_at(prs))[k]
                < prs.len() && prs[order.filter(conflicting_at(prs))[k] as int].mergeable@ == "CONFLICTING"@,
        forall|k: int|
            0 <= k < order.len() && order[k] < prs.len() && prs[order[k] as int].mergeable@ == "CONFLICTING"@
                ==> #[trigger] order.filter(conflicting_at(prs)).contains(order[k]),
{
    reveal_strlit("CONFLICTING");
    reveal_strlit("MERGEABLE");
    assert("CONFLICTING"@.len() != "MERGEABLE"@.len());
    assert forall|k: int| 0 <= k < order.filter(conflicting_at(prs)).len() implies #[trigger] order.filter(
        conflicting_at(prs),
    )[k] < prs.len() && prs[order.filter(conflicting_at(prs))[k] as int].mergeable@ == "CONFLICTING"@ by {
        order.lemma_filter_pred(conflicting_at(prs), k);
    }
    assert forall|k: int|
        0 <= k < order.len() && order[k] < prs.len() && prs[order[k] as int].mergeable@ == "CONFLICTING"@
            implies #[trigger] order.filter(conflicting_at(prs)).contains(order[k]) by {
        order.lemma_filter_contains(conflicting_at(prs), k);
    }
}

} // verus!
