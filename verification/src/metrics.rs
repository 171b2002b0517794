//! The metrics aggregator: folds each project's sessions into a
//! `ProjectSummary` and all projects into a `GlobalMetrics`, with the
//! daily activity timeline. Sessions are put in start order before the
//! first-non-empty reductions, so the chosen model and path do not
//! depend on arrival order.
use vstd::prelude::*;

use crate::models::{
    DataSource, GlobalMetrics, ParsedSession, ProjectSummary, TimelineEntry, TokenTotals, ToolCount,
};
use crate::text::{before_char, lex_le, str_le, str_eq};

verus! {

/// One project's input to the aggregator: its sessions and the
/// sources they were scanned from.
#[derive(Debug)]
pub struct ProjectSessions {
    pub id: String,
    pub sources: Vec<DataSource>,
    pub sessions: Vec<ParsedSession>,
}

// --- Ordering sessions by start time.

/// Inserts `x` into the start-time-sorted `s`, keeping arrival order
/// among equal keys.
pub open spec fn insert_session(s: Seq<ParsedSession>, x: ParsedSession) -> Seq<ParsedSession>
    decreases s.len(),
{
    if s.len() == 0 {
        seq![x]
    } else if lex_le(s.last().started_at@, x.started_at@) {
        s.push(x)
    } else {
        insert_session(s.drop_last(), x).push(s.last())
    }
}

/// Stable insertion sort of sessions by start time, ascending.
pub open spec fn sort_sessions_spec(s: Seq<ParsedSession>) -> Seq<ParsedSession>
    decreases s.len(),
{
    if s.len() == 0 {
        Seq::<ParsedSession>::empty()
    } else {
        insert_session(sort_sessions_spec(s.drop_last()), s.last())
    }
}

proof fn lemma_insert_session_at(s: Seq<ParsedSession>, x: ParsedSession, j: int)
    requires
        0 <= j <= s.len(),
        forall|k: int| j <= k < s.len() ==> !lex_le((#[trigger] s[k]).started_at@, x.started_at@),
        j > 0 ==> lex_le(s[j - 1].started_at@, x.started_at@),
    ensures
        insert_session(s, x) == s.subrange(0, j).push(x) + s.subrange(j, s.len() as int),
    decreases s.len(),
{
    if s.len() == 0 {
        assert(insert_session(s, x) =~= s.subrange(0, j).push(x) + s.subrange(j, s.len() as int));
    } else if j == s.len() {
        assert(s.subrange(0, j) =~= s);
        assert(s.subrange(j, s.len() as int) =~= Seq::<ParsedSession>::empty());
        assert(s.push(x) =~= s.subrange(0, j).push(x) + s.subrange(j, s.len() as int));
    } else {
        let d = s.drop_last();
        assert(forall|k: int| j <= k < d.len() ==> d[k] == s[k]);
        assert(j > 0 ==> d[j - 1] == s[j - 1]);
        lemma_insert_session_at(d, x, j);
        assert(d.subrange(0, j) =~= s.subrange(0, j));
        assert((d.subrange(0, j).push(x) + d.subrange(j, d.len() as int)).push(s.last())
            =~= s.subrange(0, j).push(x) + s.subrange(j, s.len() as int));
    }
}

fn insert_sorted_session(out: &mut Vec<ParsedSession>, x: ParsedSession)
    ensures
        final(out)@ == insert_session(old(out)@, x),
{
    let mut j: usize = out.len();
    while j > 0 && !str_le(out[j - 1].started_at.as_str(), x.started_at.as_str())
        invariant
            0 <= j <= out@.len(),
            forall|k: int|
                j <= k < out@.len() ==> !lex_le(
                    (#[trigger] out@[k]).started_at@,
                    x.started_at@,
                ),
            out@ == old(out)@,
        decreases j,
    {
        j = j - 1;
    }
    proof {
        lemma_insert_session_at(out@, x, j as int);
    }
    out.insert(j, x);
}

/// Stably sorts sessions by start time.
pub fn sort_sessions(input: Vec<ParsedSession>) -> (r: Vec<ParsedSession>)
    ensures
        r@ == sort_sessions_spec(input@),
{
    let ghost orig: Seq<ParsedSession> = input@;
    let mut rest = input;
    let mut out: Vec<ParsedSession> = Vec::new();
    let ghost mut done: Seq<ParsedSession> = Seq::<ParsedSession>::empty();
    proof {
        assert(done + rest@ =~= orig);
    }
    while rest.len() > 0
        invariant
            done + rest@ == orig,
            out@ == sort_sessions_spec(done),
        decreases rest@.len(),
    {
        let ghost prev: Seq<ParsedSession> = rest@;
        let x = rest.remove(0);
        proof {
            let d2 = done.push(x);
            assert(d2.drop_last() =~= done);
            assert(d2 + rest@ =~= done + prev);
            done = d2;
        }
        insert_sorted_session(&mut out, x);
    }
    proof {
        assert(done =~= orig);
    }
    out
}

// --- Per-project folds over the ordered sessions.

/// Token totals over a project's sessions, folded into `acc`,
/// saturating.
pub open spec fn ptokens_acc(acc: TokenTotals, s: Seq<ParsedSession>) -> TokenTotals
    decreases s.len(),
{
    if s.len() == 0 {
        acc
    } else {
        ptokens_acc(
            TokenTotals {
                input: crate::sat_add(acc.input, s[0].total_tokens.input),
                output: crate::sat_add(acc.output, s[0].total_tokens.output),
                cache_read: crate::sat_add(acc.cache_read, s[0].total_tokens.cache_read),
                cache_creation: crate::sat_add(
                    acc.cache_creation,
                    s[0].total_tokens.cache_creation,
                ),
            },
            s.skip(1),
        )
    }
}

/// Message count over a project's sessions, folded into `acc`,
/// saturating.
pub open spec fn pmsgs_acc(acc: usize, s: Seq<ParsedSession>) -> usize
    decreases s.len(),
{
    if s.len() == 0 {
        acc
    } else {
        pmsgs_acc(crate::sat_add_usize(acc, s[0].messages.len()), s.skip(1))
    }
}

/// Lines added over a project's sessions, folded into `acc`.
pub open spec fn plines_added_acc(acc: u64, s: Seq<ParsedSession>) -> u64
    decreases s.len(),
{
    if s.len() == 0 {
        acc
    } else {
        plines_added_acc(crate::sat_add(acc, s[0].lines_added), s.skip(1))
    }
}

/// Lines removed over a project's sessions, folded into `acc`.
pub open spec fn plines_removed_acc(acc: u64, s: Seq<ParsedSession>) -> u64
    decreases s.len(),
{
    if s.len() == 0 {
        acc
    } else {
        plines_removed_acc(crate::sat_add(acc, s[0].lines_removed), s.skip(1))
    }
}

/// One table merged into another, entry by entry, counts saturating.
pub open spec fn tools_merge(acc: Seq<ToolCount>, add: Seq<ToolCount>) -> Seq<ToolCount>
    decreases add.len(),
{
    if add.len() == 0 {
        acc
    } else {
        tools_merge(crate::parser::bump_tool_by_spec(acc, add[0].name, add[0].count), add.skip(1))
    }
}

/// Tool usage over a project's sessions, folded into `acc`.
pub open spec fn ptools_acc(acc: Seq<ToolCount>, s: Seq<ParsedSession>) -> Seq<ToolCount>
    decreases s.len(),
{
    if s.len() == 0 {
        acc
    } else {
        ptools_acc(tools_merge(acc, s[0].tool_usage@), s.skip(1))
    }
}

/// The lexicographically greatest non-empty last-active timestamp,
/// folded into `acc`.
pub open spec fn plast_acc(acc: Seq<char>, s: Seq<ParsedSession>) -> Seq<char>
    decreases s.len(),
{
    if s.len() == 0 {
        acc
    } else {
        let la = s[0].last_active@;
        let a2 = if la.len() > 0 && !lex_le(la, acc) {
            la
        } else {
            acc
        };
        plast_acc(a2, s.skip(1))
    }
}

/// The first non-empty model name, folded into `acc`.
pub open spec fn pmodel_acc(acc: Seq<char>, s: Seq<ParsedSession>) -> Seq<char>
    decreases s.len(),
{
    if s.len() == 0 {
        acc
    } else {
        let a2 = if acc.len() == 0 && s[0].model@.len() > 0 {
            s[0].model@
        } else {
            acc
        };
        pmodel_acc(a2, s.skip(1))
    }
}

/// The first non-empty working directory of a project's sessions.
pub open spec fn first_cwd_sess(s: Seq<ParsedSession>) -> Seq<char>
    decreases s.len(),
{
    if s.len() == 0 {
        Seq::<char>::empty()
    } else if s[0].cwd@.len() > 0 {
        s[0].cwd@
    } else {
        first_cwd_sess(s.skip(1))
    }
}

/// The segment of `s` after its last separator: the display name of a
/// path.
pub open spec fn after_last_slash(s: Seq<char>) -> Seq<char>
    decreases s.len(),
{
    if s.len() == 0 {
        Seq::<char>::empty()
    } else if s.last() == '/' {
        Seq::<char>::empty()
    } else {
        after_last_slash(s.drop_last()) + seq![s.last()]
    }
}

proof fn lemma_after_last_slash_at(s: Seq<char>, c: int)
    requires
        0 <= c <= s.len(),
        forall|j: int| c <= j < s.len() ==> s[j] != '/',
        c > 0 ==> s[c - 1] == '/',
    ensures
        after_last_slash(s) == s.skip(c),
    decreases s.len() - c,
{
    if c == s.len() {
        if c > 0 {
            assert(s.last() == '/');
        }
        assert(after_last_slash(s) =~= s.skip(c)) by {
            if s.len() > 0 {
                assert(s.last() == '/');
            }
        }
        assert(s.skip(c) =~= after_last_slash(s));
    } else {
        assert(s.last() != '/');
        let d = s.drop_last();
        assert(forall|j: int| c <= j < d.len() ==> d[j] == s[j]);
        assert(c > 0 ==> d[c - 1] == s[c - 1]);
        lemma_after_last_slash_at(d, c);
        assert(d.skip(c).push(s.last()) =~= s.skip(c));
    }
}

/// The display name of a path: its last segment.
fn path_name(s: &str) -> (r: &str)
    ensures
        r@ == after_last_slash(s@),
{
    let n: usize = s.unicode_len();
    let mut c: usize = n;
    while c > 0 && s.get_char(c - 1) != '/'
        invariant
            n == s@.len(),
            0 <= c <= n,
            forall|j: int| c <= j < n ==> s@[j] != '/',
        decreases c,
    {
        c = c - 1;
    }
    proof {
        lemma_after_last_slash_at(s@, c as int);
    }
    s.substring_char(c, n)
}

/// How one summary must relate to its project's input: every counter
/// folds over the start-ordered sessions, the path is the first
/// non-empty working directory, the name its last segment, and the
/// cost prices the folded totals at the chosen model's rates.
pub open spec fn summary_matches(sum: ProjectSummary, p: ProjectSessions) -> bool {
    let sess = sort_sessions_spec(p.sessions@);
    let path = first_cwd_sess(sess);
    let tok = ptokens_acc(
        TokenTotals { input: 0, output: 0, cache_read: 0, cache_creation: 0 },
        sess,
    );
    let model = pmodel_acc(Seq::<char>::empty(), sess);
    &&& sum.id == p.id
    &&& sum.path@ == path
    &&& sum.name@ == (if path.len() > 0 {
        after_last_slash(path)
    } else {
        p.id@
    })
    &&& sum.session_count == p.sessions@.len()
    &&& sum.message_count == pmsgs_acc(0, sess)
    &&& sum.total_tokens == tok
    &&& sum.lines_added == plines_added_acc(0, sess)
    &&& sum.lines_removed == plines_removed_acc(0, sess)
    &&& sum.last_active@ == plast_acc(Seq::<char>::empty(), sess)
    &&& sum.tool_usage@ == ptools_acc(Seq::<ToolCount>::empty(), sess)
    &&& sum.model@ == model
    &&& sum.cost as int == (if crate::format::cost_units(model, tok.input, tok.output, tok.cache_read)
        > u64::MAX {
        u64::MAX as int
    } else {
        crate::format::cost_units(model, tok.input, tok.output, tok.cache_read)
    })
    &&& sum.sources == p.sources
    &&& sum.sessions@ == sess
}

/// Folds one project into its summary.
fn summarize_project(p: ProjectSessions) -> (r: ProjectSummary)
    ensures
        summary_matches(r, p),
{
    let session_count: usize = p.sessions.len();
    let sess = sort_sessions(p.sessions);
    let ghost sv: Seq<ParsedSession> = sess@;
    let n: usize = sess.len();
    let mut tokens = TokenTotals::zero();
    let mut message_count: usize = 0;
    let mut lines_added: u64 = 0;
    let mut lines_removed: u64 = 0;
    let mut tools: Vec<ToolCount> = Vec::new();
    let mut last_active = String::new();
    let mut model = String::new();
    let mut path = String::new();
    let mut found_path: bool = false;
    let mut i: usize = 0;
    proof {
        assert(sv.skip(0) =~= sv);
    }
    while i < n
        invariant
            n == sv.len(),
            sess@ == sv,
            0 <= i <= n,
            ptokens_acc(tokens, sv.skip(i as int)) == ptokens_acc(
                TokenTotals { input: 0, output: 0, cache_read: 0, cache_creation: 0 },
                sv,
            ),
            pmsgs_acc(message_count, sv.skip(i as int)) == pmsgs_acc(0, sv),
            plines_added_acc(lines_added, sv.skip(i as int)) == plines_added_acc(0, sv),
            plines_removed_acc(lines_removed, sv.skip(i as int)) == plines_removed_acc(0, sv),
            ptools_acc(tools@, sv.skip(i as int)) == ptools_acc(Seq::<ToolCount>::empty(), sv),
            plast_acc(last_active@, sv.skip(i as int)) == plast_acc(Seq::<char>::empty(), sv),
            pmodel_acc(model@, sv.skip(i as int)) == pmodel_acc(Seq::<char>::empty(), sv),
            (if found_path {
                path@.len() > 0 && path@ == first_cwd_sess(sv)
            } else {
                path@.len() == 0 && first_cwd_sess(sv.skip(i as int)) == first_cwd_sess(sv)
            }),
        decreases n - i,
    {
        proof {
            assert(sv.skip(i as int)[0] == sv[i as int]);
            assert(sv.skip(i as int).skip(1) =~= sv.skip(i as int + 1));
        }
        let s = &sess[i];
        tokens = TokenTotals {
            input: crate::sat_add64(tokens.input, s.total_tokens.input),
            output: crate::sat_add64(tokens.output, s.total_tokens.output),
            cache_read: crate::sat_add64(tokens.cache_read, s.total_tokens.cache_read),
            cache_creation: crate::sat_add64(tokens.cache_creation, s.total_tokens.cache_creation),
        };
        message_count = crate::sat_addus(message_count, s.messages.len());
        lines_added = crate::sat_add64(lines_added, s.lines_added);
        lines_removed = crate::sat_add64(lines_removed, s.lines_removed);
        merge_tools(&mut tools, &s.tool_usage);
        if !s.last_active.as_str().is_empty() && !str_le(
            s.last_active.as_str(),
            last_active.as_str(),
        ) {
            last_active = s.last_active.clone();
        }
        if model.as_str().is_empty() && !s.model.as_str().is_empty() {
            model = s.model.clone();
        }
        if !found_path && !s.cwd.as_str().is_empty() {
            path = s.cwd.clone();
            found_path = true;
        }
        i = i + 1;
    }
    proof {
        assert(sv.skip(n as int) =~= Seq::<ParsedSession>::empty());
        if !found_path {
            assert(path@ == first_cwd_sess(sv));
        }
    }
    let name: String = if !path.as_str().is_empty() {
        String::from_str(path_name(path.as_str()))
    } else {
        p.id.clone()
    };
    let cost = crate::format::estimate_cost(
        model.as_str(),
        tokens.input,
        tokens.output,
        tokens.cache_read,
    );
    ProjectSummary {
        id: p.id,
        name: name,
        path: path,
        session_count: session_count,
        message_count: message_count,
        total_tokens: tokens,
        lines_added: lines_added,
        lines_removed: lines_removed,
        last_active: last_active,
        tool_usage: tools,
        cost: cost,
        model: model,
        sources: p.sources,
        sessions: sess,
    }
}

/// Merges a session's tool table into the accumulator.
fn merge_tools(acc: &mut Vec<ToolCount>, add: &Vec<ToolCount>)
    ensures
        final(acc)@ == tools_merge(old(acc)@, add@),
{
    let n: usize = add.len();
    let mut i: usize = 0;
    proof {
        assert(add@.skip(0) =~= add@);
    }
    while i < n
        invariant
            n == add@.len(),
            0 <= i <= n,
            tools_merge(acc@, add@.skip(i as int)) == tools_merge(old(acc)@, add@),
        decreases n - i,
    {
        proof {
            assert(add@.skip(i as int)[0] == add@[i as int]);
            assert(add@.skip(i as int).skip(1) =~= add@.skip(i as int + 1));
        }
        let e = &add[i];
        crate::parser::bump_tool_by(acc, e.name.clone(), e.count);
        i = i + 1;
    }
    proof {
        assert(add@.skip(n as int) =~= Seq::<ToolCount>::empty());
    }
}

// --- Ordering summaries by last activity, newest first.

/// Inserts `x` into the sorted summaries, after entries at least as
/// recent, keeping arrival order among equal keys.
pub open spec fn insert_summary(s: Seq<ProjectSummary>, x: ProjectSummary) -> Seq<ProjectSummary>
    decreases s.len(),
{
    if s.len() == 0 {
        seq![x]
    } else if lex_le(x.last_active@, s.last().last_active@) {
        s.push(x)
    } else {
        insert_summary(s.drop_last(), x).push(s.last())
    }
}

/// Stable insertion sort of summaries by last activity, descending.
pub open spec fn sort_summaries_spec(s: Seq<ProjectSummary>) -> Seq<ProjectSummary>
    decreases s.len(),
{
    if s.len() == 0 {
        Seq::<ProjectSummary>::empty()
    } else {
        insert_summary(sort_summaries_spec(s.drop_last()), s.last())
    }
}

proof fn lemma_insert_summary_at(s: Seq<ProjectSummary>, x: ProjectSummary, j: int)
    requires
        0 <= j <= s.len(),
        forall|k: int| j <= k < s.len() ==> !lex_le(x.last_active@, (#[trigger] s[k]).last_active@),
        j > 0 ==> lex_le(x.last_active@, s[j - 1].last_active@),
    ensures
        insert_summary(s, x) == s.subrange(0, j).push(x) + s.subrange(j, s.len() as int),
    decreases s.len(),
{
    if s.len() == 0 {
        assert(insert_summary(s, x) =~= s.subrange(0, j).push(x) + s.subrange(j, s.len() as int));
    } else if j == s.len() {
        assert(s.subrange(0, j) =~= s);
        assert(s.subrange(j, s.len() as int) =~= Seq::<ProjectSummary>::empty());
        assert(s.push(x) =~= s.subrange(0, j).push(x) + s.subrange(j, s.len() as int));
    } else {
        let d = s.drop_last();
        assert(forall|k: int| j <= k < d.len() ==> d[k] == s[k]);
        assert(j > 0 ==> d[j - 1] == s[j - 1]);
        lemma_insert_summary_at(d, x, j);
        assert(d.subrange(0, j) =~= s.subrange(0, j));
        assert((d.subrange(0, j).push(x) + d.subrange(j, d.len() as int)).push(s.last())
            =~= s.subrange(0, j).push(x) + s.subrange(j, s.len() as int));
    }
}

fn insert_sorted_summary(out: &mut Vec<ProjectSummary>, x: ProjectSummary)
    ensures
        final(out)@ == insert_summary(old(out)@, x),
{
    let mut j: usize = out.len();
    while j > 0 && !str_le(x.last_active.as_str(), out[j - 1].last_active.as_str())
        invariant
            0 <= j <= out@.len(),
            forall|k: int|
                j <= k < out@.len() ==> !lex_le(
                    x.last_active@,
                    (#[trigger] out@[k]).last_active@,
                ),
            out@ == old(out)@,
        decreases j,
    {
        j = j - 1;
    }
    proof {
        lemma_insert_summary_at(out@, x, j as int);
    }
    out.insert(j, x);
}

/// The projects that have at least one session.
pub open spec fn nonempty_projects(s: Seq<ProjectSessions>) -> Seq<ProjectSessions>
    decreases s.len(),
{
    if s.len() == 0 {
        Seq::<ProjectSessions>::empty()
    } else {
        (if s[0].sessions@.len() > 0 {
            seq![s[0]]
        } else {
            Seq::<ProjectSessions>::empty()
        }) + nonempty_projects(s.skip(1))
    }
}

/// Folds every project with sessions into a summary, and orders the
/// summaries by last activity, newest first.
pub fn build_project_summaries(projects: Vec<ProjectSessions>) -> (r: Vec<ProjectSummary>)
    ensures
        exists|pre: Seq<ProjectSummary>|
            {
                &&& pre.len() == nonempty_projects(projects@).len()
                &&& (forall|k: int|
                    0 <= k < pre.len() ==> summary_matches(
                        #[trigger] pre[k],
                        nonempty_projects(projects@)[k],
                    ))
                &&& r@ == sort_summaries_spec(pre)
            },
{
    let ghost all: Seq<ProjectSessions> = projects@;
    let mut rest = projects;
    let mut sums: Vec<ProjectSummary> = Vec::new();
    let ghost mut kseq: Seq<ProjectSessions> = Seq::<ProjectSessions>::empty();
    proof {
        assert(kseq + nonempty_projects(rest@) =~= nonempty_projects(all));
    }
    while rest.len() > 0
        invariant
            kseq + nonempty_projects(rest@) == nonempty_projects(all),
            sums@.len() == kseq.len(),
            forall|k: int|
                0 <= k < kseq.len() ==> summary_matches(#[trigger] sums@[k], kseq[k]),
        decreases rest@.len(),
    {
        let ghost prev: Seq<ProjectSessions> = rest@;
        let p = rest.remove(0);
        proof {
            assert(prev[0] == p);
            assert(prev.skip(1) =~= rest@);
        }
        if p.sessions.len() > 0 {
            proof {
                assert(nonempty_projects(prev) =~= seq![p] + nonempty_projects(rest@));
                kseq = kseq.push(p);
                assert(kseq + nonempty_projects(rest@) =~= nonempty_projects(all));
            }
            let sum = summarize_project(p);
            sums.push(sum);
        } else {
            proof {
                assert(nonempty_projects(prev) =~= nonempty_projects(rest@));
            }
        }
    }
    proof {
        assert(nonempty_projects(rest@) =~= Seq::<ProjectSessions>::empty());
        assert(kseq =~= nonempty_projects(all));
    }
    let ghost pre: Seq<ProjectSummary> = sums@;
    let mut rest2 = sums;
    let mut out: Vec<ProjectSummary> = Vec::new();
    let ghost mut done: Seq<ProjectSummary> = Seq::<ProjectSummary>::empty();
    proof {
        assert(done + rest2@ =~= pre);
    }
    while rest2.len() > 0
        invariant
            done + rest2@ == pre,
            out@ == sort_summaries_spec(done),
        decreases rest2@.len(),
    {
        let ghost prev2: Seq<ProjectSummary> = rest2@;
        let x = rest2.remove(0);
        proof {
            let d2 = done.push(x);
            assert(d2.drop_last() =~= done);
            assert(d2 + rest2@ =~= done + prev2);
            done = d2;
        }
        insert_sorted_summary(&mut out, x);
    }
    proof {
        assert(done =~= pre);
        assert(forall|k: int|
            0 <= k < pre.len() ==> summary_matches(#[trigger] pre[k], nonempty_projects(all)[k]));
    }
    out
}

// --- The global roll-up.

/// Token totals over all projects, folded into `acc`.
pub open spec fn gtokens_acc(acc: TokenTotals, s: Seq<ProjectSummary>) -> TokenTotals
    decreases s.len(),
{
    if s.len() == 0 {
        acc
    } else {
        gtokens_acc(
            TokenTotals {
                input: crate::sat_add(acc.input, s[0].total_tokens.input),
                output: crate::sat_add(acc.output, s[0].total_tokens.output),
                cache_read: crate::sat_add(acc.cache_read, s[0].total_tokens.cache_read),
                cache_creation: crate::sat_add(
                    acc.cache_creation,
                    s[0].total_tokens.cache_creation,
                ),
            },
            s.skip(1),
        )
    }
}

/// Session count over all projects, folded into `acc`.
pub open spec fn gsessions_acc(acc: usize, s: Seq<ProjectSummary>) -> usize
    decreases s.len(),
{
    if s.len() == 0 {
        acc
    } else {
        gsessions_acc(crate::sat_add_usize(acc, s[0].session_count), s.skip(1))
    }
}

/// Message count over all projects, folded into `acc`.
pub open spec fn gmessages_acc(acc: usize, s: Seq<ProjectSummary>) -> usize
    decreases s.len(),
{
    if s.len() == 0 {
        acc
    } else {
        gmessages_acc(crate::sat_add_usize(acc, s[0].message_count), s.skip(1))
    }
}

/// Lines added over all projects, folded into `acc`.
pub open spec fn glines_added_acc(acc: u64, s: Seq<ProjectSummary>) -> u64
    decreases s.len(),
{
    if s.len() == 0 {
        acc
    } else {
        glines_added_acc(crate::sat_add(acc, s[0].lines_added), s.skip(1))
    }
}

/// Lines removed over all projects, folded into `acc`.
pub open spec fn glines_removed_acc(acc: u64, s: Seq<ProjectSummary>) -> u64
    decreases s.len(),
{
    if s.len() == 0 {
        acc
    } else {
        glines_removed_acc(crate::sat_add(acc, s[0].lines_removed), s.skip(1))
    }
}

/// Cost over all projects, folded into `acc`, saturating.
pub open spec fn gcost_acc(acc: u64, s: Seq<ProjectSummary>) -> u64
    decreases s.len(),
{
    if s.len() == 0 {
        acc
    } else {
        gcost_acc(crate::sat_add(acc, s[0].cost), s.skip(1))
    }
}

/// Tool usage over all projects, folded into `acc`.
pub open spec fn gtools_acc(acc: Seq<ToolCount>, s: Seq<ProjectSummary>) -> Seq<ToolCount>
    decreases s.len(),
{
    if s.len() == 0 {
        acc
    } else {
        gtools_acc(tools_merge(acc, s[0].tool_usage@), s.skip(1))
    }
}

/// Human-contributed lines over one project's sessions, folded into
/// `acc`.
pub open spec fn hl_sess_acc(acc: u64, s: Seq<ParsedSession>) -> u64
    decreases s.len(),
{
    if s.len() == 0 {
        acc
    } else {
        hl_sess_acc(crate::sat_add(acc, s[0].human_lines), s.skip(1))
    }
}

/// Human-contributed words over one project's sessions, folded into
/// `acc`.
pub open spec fn hw_sess_acc(acc: u64, s: Seq<ParsedSession>) -> u64
    decreases s.len(),
{
    if s.len() == 0 {
        acc
    } else {
        hw_sess_acc(crate::sat_add(acc, s[0].human_words), s.skip(1))
    }
}

/// Human-contributed characters over one project's sessions, folded
/// into `acc`.
pub open spec fn hc_sess_acc(acc: u64, s: Seq<ParsedSession>) -> u64
    decreases s.len(),
{
    if s.len() == 0 {
        acc
    } else {
        hc_sess_acc(crate::sat_add(acc, s[0].human_chars), s.skip(1))
    }
}

/// Human-contributed lines over all projects, folded into `acc`.
pub open spec fn ghl_acc(acc: u64, s: Seq<ProjectSummary>) -> u64
    decreases s.len(),
{
    if s.len() == 0 {
        acc
    } else {
        ghl_acc(hl_sess_acc(acc, s[0].sessions@), s.skip(1))
    }
}

/// Human-contributed words over all projects, folded into `acc`.
pub open spec fn ghw_acc(acc: u64, s: Seq<ProjectSummary>) -> u64
    decreases s.len(),
{
    if s.len() == 0 {
        acc
    } else {
        ghw_acc(hw_sess_acc(acc, s[0].sessions@), s.skip(1))
    }
}

/// Human-contributed characters over all projects, folded into `acc`.
pub open spec fn ghc_acc(acc: u64, s: Seq<ProjectSummary>) -> u64
    decreases s.len(),
{
    if s.len() == 0 {
        acc
    } else {
        ghc_acc(hc_sess_acc(acc, s[0].sessions@), s.skip(1))
    }
}

// --- The daily timeline.

/// The abstract content of a timeline entry.
pub struct TlView {
    pub date: Seq<char>,
    pub sessions: u64,
    pub messages: u64,
    pub tin: u64,
    pub tout: u64,
}

/// The abstract content of a timeline entry.
pub open spec fn tl_view(e: TimelineEntry) -> TlView {
    TlView {
        date: e.date@,
        sessions: e.sessions,
        messages: e.messages,
        tin: e.token_input,
        tout: e.token_output,
    }
}

/// The abstract contents of a timeline.
pub open spec fn tl_views(s: Seq<TimelineEntry>) -> Seq<TlView> {
    s.map_values(|e: TimelineEntry| tl_view(e))
}

/// First index tallying `date`; `acc.len()` if none.
pub open spec fn tl_idx(acc: Seq<TlView>, date: Seq<char>) -> int
    decreases acc.len(),
{
    if acc.len() == 0 {
        0
    } else if acc[0].date == date {
        0
    } else {
        1 + tl_idx(acc.skip(1), date)
    }
}

/// Tallies one session into its day: an existing day grows,
/// saturating; a new day is appended.
pub open spec fn tl_bump(acc: Seq<TlView>, date: Seq<char>, msgs: u64, tin: u64, tout: u64) -> Seq<TlView> {
    let i = tl_idx(acc, date);
    if i < acc.len() {
        acc.update(
            i,
            TlView {
                date: acc[i].date,
                sessions: crate::sat_add(acc[i].sessions, 1),
                messages: crate::sat_add(acc[i].messages, msgs),
                tin: crate::sat_add(acc[i].tin, tin),
                tout: crate::sat_add(acc[i].tout, tout),
            },
        )
    } else {
        acc.push(TlView { date: date, sessions: 1, messages: msgs, tin: tin, tout: tout })
    }
}

/// One session's timeline step: a session with a dated start tallies
/// into the date part of its start timestamp.
pub open spec fn tl_sess_step(acc: Seq<TlView>, s: ParsedSession) -> Seq<TlView> {
    let day = before_char(s.started_at@, 'T');
    if s.started_at@.len() > 0 && day.len() > 0 {
        tl_bump(acc, day, s.messages@.len() as u64, s.total_tokens.input, s.total_tokens.output)
    } else {
        acc
    }
}

/// The timeline over one project's sessions, folded into `acc`.
pub open spec fn tl_sess_acc(acc: Seq<TlView>, s: Seq<ParsedSession>) -> Seq<TlView>
    decreases s.len(),
{
    if s.len() == 0 {
        acc
    } else {
        tl_sess_acc(tl_sess_step(acc, s[0]), s.skip(1))
    }
}

/// The timeline over all projects, folded into `acc`.
pub open spec fn tl_proj_acc(acc: Seq<TlView>, s: Seq<ProjectSummary>) -> Seq<TlView>
    decreases s.len(),
{
    if s.len() == 0 {
        acc
    } else {
        tl_proj_acc(tl_sess_acc(acc, s[0].sessions@), s.skip(1))
    }
}

proof fn lemma_tl_idx_at(s: Seq<TlView>, date: Seq<char>, j: int)
    requires
        0 <= j <= s.len(),
        forall|k: int| 0 <= k < j ==> (#[trigger] s[k]).date != date,
        j < s.len() ==> s[j].date == date,
    ensures
        tl_idx(s, date) == j,
    decreases j,
{
    if j > 0 {
        lemma_tl_idx_at(s.skip(1), date, j - 1);
    }
}

/// Tallies one session into the timeline table.
fn tl_bump_exec(tl: &mut Vec<TimelineEntry>, date: String, msgs: u64, tin: u64, tout: u64)
    ensures
        tl_views(final(tl)@) == tl_bump(tl_views(old(tl)@), date@, msgs, tin, tout),
{
    let ghost tv: Seq<TlView> = tl_views(tl@);
    let n: usize = tl.len();
    let mut j: usize = 0;
    while j < n
        invariant
            n == tl@.len(),
            0 <= j <= n,
            tl@ == old(tl)@,
            tv == tl_views(tl@),
            forall|k: int| 0 <= k < j ==> (#[trigger] tv[k]).date != date@,
        decreases n - j,
    {
        proof {
            assert(tv[j as int].date == tl@[j as int].date@);
        }
        if str_eq(tl[j].date.as_str(), date.as_str()) {
            proof {
                lemma_tl_idx_at(tv, date@, j as int);
            }
            let e = tl.remove(j);
            let e2 = TimelineEntry {
                date: e.date,
                sessions: crate::sat_add64(e.sessions, 1),
                messages: crate::sat_add64(e.messages, msgs),
                token_input: crate::sat_add64(e.token_input, tin),
                token_output: crate::sat_add64(e.token_output, tout),
            };
            tl.insert(j, e2);
            proof {
                assert(tl_views(tl@) =~= tl_bump(tv, date@, msgs, tin, tout));
            }
            return;
        }
        j = j + 1;
    }
    proof {
        lemma_tl_idx_at(tv, date@, n as int);
    }
    tl.push(
        TimelineEntry {
            date: date,
            sessions: 1,
            messages: msgs,
            token_input: tin,
            token_output: tout,
        },
    );
    proof {
        assert(tl_views(tl@) =~= tl_bump(tv, date@, msgs, tin, tout));
    }
}

/// Inserts `x` into the date-sorted timeline, keeping arrival order
/// among equal dates.
pub open spec fn insert_timeline(s: Seq<TimelineEntry>, x: TimelineEntry) -> Seq<TimelineEntry>
    decreases s.len(),
{
    if s.len() == 0 {
        seq![x]
    } else if lex_le(s.last().date@, x.date@) {
        s.push(x)
    } else {
        insert_timeline(s.drop_last(), x).push(s.last())
    }
}

/// Stable insertion sort of timeline entries by date, ascending.
pub open spec fn sort_timeline_spec(s: Seq<TimelineEntry>) -> Seq<TimelineEntry>
    decreases s.len(),
{
    if s.len() == 0 {
        Seq::<TimelineEntry>::empty()
    } else {
        insert_timeline(sort_timeline_spec(s.drop_last()), s.last())
    }
}

proof fn lemma_insert_timeline_at(s: Seq<TimelineEntry>, x: TimelineEntry, j: int)
    requires
        0 <= j <= s.len(),
        forall|k: int| j <= k < s.len() ==> !lex_le((#[trigger] s[k]).date@, x.date@),
        j > 0 ==> lex_le(s[j - 1].date@, x.date@),
    ensures
        insert_timeline(s, x) == s.subrange(0, j).push(x) + s.subrange(j, s.len() as int),
    decreases s.len(),
{
    if s.len() == 0 {
        assert(insert_timeline(s, x) =~= s.subrange(0, j).push(x) + s.subrange(j, s.len() as int));
    } else if j == s.len() {
        assert(s.subrange(0, j) =~= s);
        assert(s.subrange(j, s.len() as int) =~= Seq::<TimelineEntry>::empty());
        assert(s.push(x) =~= s.subrange(0, j).push(x) + s.subrange(j, s.len() as int));
    } else {
        let d = s.drop_last();
        assert(forall|k: int| j <= k < d.len() ==> d[k] == s[k]);
        assert(j > 0 ==> d[j - 1] == s[j - 1]);
        lemma_insert_timeline_at(d, x, j);
        assert(d.subrange(0, j) =~= s.subrange(0, j));
        assert((d.subrange(0, j).push(x) + d.subrange(j, d.len() as int)).push(s.last())
            =~= s.subrange(0, j).push(x) + s.subrange(j, s.len() as int));
    }
}

fn insert_sorted_timeline(out: &mut Vec<TimelineEntry>, x: TimelineEntry)
    ensures
        final(out)@ == insert_timeline(old(out)@, x),
{
    let mut j: usize = out.len();
    while j > 0 && !str_le(out[j - 1].date.as_str(), x.date.as_str())
        invariant
            0 <= j <= out@.len(),
            forall|k: int| j <= k < out@.len() ==> !lex_le((#[trigger] out@[k]).date@, x.date@),
            out@ == old(out)@,
        decreases j,
    {
        j = j - 1;
    }
    proof {
        lemma_insert_timeline_at(out@, x, j as int);
    }
    out.insert(j, x);
}

/// Sums every project into the run's totals and builds the daily
/// activity timeline, ordered by date.
pub fn compute_global_metrics(projects: &Vec<ProjectSummary>) -> (r: GlobalMetrics)
    ensures
        r.total_projects == projects@.len(),
        r.total_sessions == gsessions_acc(0, projects@),
        r.total_messages == gmessages_acc(0, projects@),
        r.total_tokens == gtokens_acc(
            TokenTotals { input: 0, output: 0, cache_read: 0, cache_creation: 0 },
            projects@,
        ),
        r.tool_usage@ == gtools_acc(Seq::<ToolCount>::empty(), projects@),
        r.total_lines_added == glines_added_acc(0, projects@),
        r.total_lines_removed == glines_removed_acc(0, projects@),
        r.total_cost == gcost_acc(0, projects@),
        r.human_lines == ghl_acc(0, projects@),
        r.human_words == ghw_acc(0, projects@),
        r.human_chars == ghc_acc(0, projects@),
        exists|pre: Seq<TimelineEntry>|
            tl_views(pre) == tl_proj_acc(Seq::<TlView>::empty(), projects@) && r.timeline@
                == sort_timeline_spec(pre),
{
    let np: usize = projects.len();
    let mut tokens = TokenTotals::zero();
    let mut total_sessions: usize = 0;
    let mut total_messages: usize = 0;
    let mut lines_added: u64 = 0;
    let mut lines_removed: u64 = 0;
    let mut total_cost: u64 = 0;
    let mut tools: Vec<ToolCount> = Vec::new();
    let mut hl: u64 = 0;
    let mut hw: u64 = 0;
    let mut hc: u64 = 0;
    let mut tl: Vec<TimelineEntry> = Vec::new();
    let mut i: usize = 0;
    proof {
        assert(projects@.skip(0) =~= projects@);
        assert(tl_views(tl@) =~= Seq::<TlView>::empty());
    }
    while i < np
        invariant
            np == projects@.len(),
            0 <= i <= np,
            gtokens_acc(tokens, projects@.skip(i as int)) == gtokens_acc(
                TokenTotals { input: 0, output: 0, cache_read: 0, cache_creation: 0 },
                projects@,
            ),
            gsessions_acc(total_sessions, projects@.skip(i as int)) == gsessions_acc(0, projects@),
            gmessages_acc(total_messages, projects@.skip(i as int)) == gmessages_acc(0, projects@),
            glines_added_acc(lines_added, projects@.skip(i as int)) == glines_added_acc(
                0,
                projects@,
            ),
            glines_removed_acc(lines_removed, projects@.skip(i as int)) == glines_removed_acc(
                0,
                projects@,
            ),
            gcost_acc(total_cost, projects@.skip(i as int)) == gcost_acc(0, projects@),
            gtools_acc(tools@, projects@.skip(i as int)) == gtools_acc(
                Seq::<ToolCount>::empty(),
                projects@,
            ),
            ghl_acc(hl, projects@.skip(i as int)) == ghl_acc(0, projects@),
            ghw_acc(hw, projects@.skip(i as int)) == ghw_acc(0, projects@),
            ghc_acc(hc, projects@.skip(i as int)) == ghc_acc(0, projects@),
            tl_proj_acc(tl_views(tl@), projects@.skip(i as int)) == tl_proj_acc(
                Seq::<TlView>::empty(),
                projects@,
            ),
        decreases np - i,
    {
        proof {
            assert(projects@.skip(i as int)[0] == projects@[i as int]);
            assert(projects@.skip(i as int).skip(1) =~= projects@.skip(i as int + 1));
        }
        let p = &projects[i];
        tokens = TokenTotals {
            input: crate::sat_add64(tokens.input, p.total_tokens.input),
            output: crate::sat_add64(tokens.output, p.total_tokens.output),
            cache_read: crate::sat_add64(tokens.cache_read, p.total_tokens.cache_read),
            cache_creation: crate::sat_add64(tokens.cache_creation, p.total_tokens.cache_creation),
        };
        total_sessions = crate::sat_addus(total_sessions, p.session_count);
        total_messages = crate::sat_addus(total_messages, p.message_count);
        lines_added = crate::sat_add64(lines_added, p.lines_added);
        lines_removed = crate::sat_add64(lines_removed, p.lines_removed);
        total_cost = crate::sat_add64(total_cost, p.cost);
        merge_tools(&mut tools, &p.tool_usage);
        let sessions = &p.sessions;
        let ns: usize = sessions.len();
        let ghost sv: Seq<ParsedSession> = sessions@;
        let ghost hl0: u64 = hl;
        let ghost hw0: u64 = hw;
        let ghost hc0: u64 = hc;
        let ghost tv0: Seq<TlView> = tl_views(tl@);
        let mut k: usize = 0;
        proof {
            assert(sv.skip(0) =~= sv);
        }
        while k < ns
            invariant
                ns == sv.len(),
                0 <= k <= ns,
                sessions@ == sv,
                hl_sess_acc(hl, sv.skip(k as int)) == hl_sess_acc(hl0, sv),
                hw_sess_acc(hw, sv.skip(k as int)) == hw_sess_acc(hw0, sv),
                hc_sess_acc(hc, sv.skip(k as int)) == hc_sess_acc(hc0, sv),
                tl_sess_acc(tl_views(tl@), sv.skip(k as int)) == tl_sess_acc(tv0, sv),
            decreases ns - k,
        {
            proof {
                assert(sv.skip(k as int)[0] == sv[k as int]);
                assert(sv.skip(k as int).skip(1) =~= sv.skip(k as int + 1));
            }
            let s = &sessions[k];
            hl = crate::sat_add64(hl, s.human_lines);
            hw = crate::sat_add64(hw, s.human_words);
            hc = crate::sat_add64(hc, s.human_chars);
            let day = crate::text::str_before_char(s.started_at.as_str(), 'T');
            if !s.started_at.as_str().is_empty() && !day.is_empty() {
                let day_string = String::from_str(day);
                tl_bump_exec(
                    &mut tl,
                    day_string,
                    s.messages.len() as u64,
                    s.total_tokens.input,
                    s.total_tokens.output,
                );
            }
            k = k + 1;
        }
        proof {
            assert(sv.skip(ns as int) =~= Seq::<ParsedSession>::empty());
        }
        i = i + 1;
    }
    proof {
        assert(projects@.skip(np as int) =~= Seq::<ProjectSummary>::empty());
    }
    let ghost pre: Seq<TimelineEntry> = tl@;
    let mut rest = tl;
    let mut timeline: Vec<TimelineEntry> = Vec::new();
    let ghost mut done: Seq<TimelineEntry> = Seq::<TimelineEntry>::empty();
    proof {
        assert(done + rest@ =~= pre);
    }
    while rest.len() > 0
        invariant
            done + rest@ == pre,
            timeline@ == sort_timeline_spec(done),
        decreases rest@.len(),
    {
        let ghost prev: Seq<TimelineEntry> = rest@;
        let x = rest.remove(0);
        proof {
            let d2 = done.push(x);
            assert(d2.drop_last() =~= done);
            assert(d2 + rest@ =~= done + prev);
            done = d2;
        }
        insert_sorted_timeline(&mut timeline, x);
    }
    proof {
        assert(done =~= pre);
    }
    GlobalMetrics {
        total_projects: np,
        total_sessions: total_sessions,
        total_messages: total_messages,
        total_tokens: tokens,
        tool_usage: tools,
        timeline: timeline,
        total_lines_added: lines_added,
        total_lines_removed: lines_removed,
        total_cost: total_cost,
        human_lines: hl,
        human_words: hw,
        human_chars: hc,
    }
}

} // verus!
