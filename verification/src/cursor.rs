//! The key-value-store normalizer: orders raw turns ("bubbles") by
//! their reported start time, resolves their timestamps against the
//! session's creation time, and accumulates token, line and tool
//! accounting into a `ParsedSession`. This source reports input tokens
//! cumulatively, so the input total is a running maximum, while output
//! tokens accumulate by sum.
use vstd::prelude::*;

use crate::models::{CodeBlock, ComposerHead, RawBubble, TokenUsage};
use crate::text::str_eq;
use crate::timestamp::{iso_of_ms, resolve_ts};

verus! {

/// The bubble type codes of the store.
pub const BUBBLE_USER: i64 = 1;

pub const BUBBLE_ASSISTANT: i64 = 2;

/// This source's tool names, mapped to the line-oriented source's
/// naming convention; an unknown name passes through.
pub open spec fn normalized_tool(name: Seq<char>) -> Seq<char> {
    if name == "edit_file"@ {
        "Edit"@
    } else if name == "create_file"@ {
        "Write"@
    } else if name == "run_terminal_command"@ {
        "Bash"@
    } else if name == "read_file"@ {
        "Read"@
    } else if name == "list_directory"@ {
        "Glob"@
    } else if name == "file_search"@ {
        "Glob"@
    } else if name == "search_files"@ {
        "Grep"@
    } else if name == "codebase_search"@ {
        "Grep"@
    } else if name == "grep_search"@ {
        "Grep"@
    } else {
        name
    }
}

/// Maps a tool name of this source to the shared naming convention.
pub fn normalize_tool<'a>(name: &'a str) -> (r: &'a str)
    ensures
        r@ == normalized_tool(name@),
{
    if str_eq(name, "edit_file") {
        "Edit"
    } else if str_eq(name, "create_file") {
        "Write"
    } else if str_eq(name, "run_terminal_command") {
        "Bash"
    } else if str_eq(name, "read_file") {
        "Read"
    } else if str_eq(name, "list_directory") {
        "Glob"
    } else if str_eq(name, "file_search") {
        "Glob"
    } else if str_eq(name, "search_files") {
        "Grep"
    } else if str_eq(name, "codebase_search") {
        "Grep"
    } else if str_eq(name, "grep_search") {
        "Grep"
    } else {
        name
    }
}

/// A bubble's sort key: its raw start time, absent sorting earliest.
pub open spec fn bubble_key(b: RawBubble) -> i64 {
    match b.start_time {
        Some(v) => v,
        None => 0,
    }
}

/// Inserts `b` into the key-sorted `s`, after entries with keys not
/// greater, keeping arrival order among equal keys.
pub open spec fn insert_bubble(s: Seq<RawBubble>, b: RawBubble) -> Seq<RawBubble>
    decreases s.len(),
{
    if s.len() == 0 {
        seq![b]
    } else if bubble_key(s.last()) <= bubble_key(b) {
        s.push(b)
    } else {
        insert_bubble(s.drop_last(), b).push(s.last())
    }
}

/// Stable insertion sort of bubbles by start time.
pub open spec fn sort_bubbles_spec(s: Seq<RawBubble>) -> Seq<RawBubble>
    decreases s.len(),
{
    if s.len() == 0 {
        Seq::<RawBubble>::empty()
    } else {
        insert_bubble(sort_bubbles_spec(s.drop_last()), s.last())
    }
}

/// A bubble's resolved timestamp string: the RFC 3339 rendering of its
/// resolved start time, or the creation-time string where the start is
/// unresolvable.
pub open spec fn bubble_ts(b: RawBubble, base: i64, created: Seq<char>) -> Seq<char> {
    match resolve_ts(b.start_time, base) {
        Some(ms) => iso_of_ms(ms as int),
        None => created,
    }
}

/// The first non-empty bubble timestamp, folded into `acc`.
pub open spec fn bstart_acc(acc: Seq<char>, s: Seq<RawBubble>, base: i64, created: Seq<char>) -> Seq<char>
    decreases s.len(),
{
    if s.len() == 0 {
        acc
    } else {
        let ts = bubble_ts(s[0], base, created);
        let a2 = if acc.len() == 0 && ts.len() > 0 {
            ts
        } else {
            acc
        };
        bstart_acc(a2, s.skip(1), base, created)
    }
}

/// The last non-empty bubble timestamp, folded into `acc`.
pub open spec fn blast_acc(acc: Seq<char>, s: Seq<RawBubble>, base: i64, created: Seq<char>) -> Seq<char>
    decreases s.len(),
{
    if s.len() == 0 {
        acc
    } else {
        let ts = bubble_ts(s[0], base, created);
        let a2 = if ts.len() > 0 {
            ts
        } else {
            acc
        };
        blast_acc(a2, s.skip(1), base, created)
    }
}

/// The running maximum of reported cumulative input tokens, folded
/// into `acc`; user and assistant bubbles both report it.
pub open spec fn input_max_acc(acc: u64, s: Seq<RawBubble>) -> u64
    decreases s.len(),
{
    if s.len() == 0 {
        acc
    } else {
        let a2 = if s[0].bubble_type == 1 || s[0].bubble_type == 2 {
            match s[0].input_tokens {
                Some(v) => if v > acc {
                    v
                } else {
                    acc
                },
                None => acc,
            }
        } else {
            acc
        };
        input_max_acc(a2, s.skip(1))
    }
}

/// Law: this source reports input tokens cumulatively, so the folded
/// input total is a running maximum — at least every reported count,
/// and never less than what was already accumulated — not a sum.
pub proof fn lemma_input_total_is_max(s: Seq<RawBubble>, acc: u64)
    ensures
        input_max_acc(acc, s) >= acc,
        forall|i: int|
            0 <= i < s.len() && ((#[trigger] s[i]).bubble_type == 1 || s[i].bubble_type == 2)
                && s[i].input_tokens is Some ==> input_max_acc(acc, s)
                >= s[i].input_tokens.unwrap(),
    decreases s.len(),
{
    if s.len() > 0 {
        let a2 = if s[0].bubble_type == 1 || s[0].bubble_type == 2 {
            match s[0].input_tokens {
                Some(v) => if v > acc {
                    v
                } else {
                    acc
                },
                None => acc,
            }
        } else {
            acc
        };
        lemma_input_total_is_max(s.skip(1), a2);
        assert(forall|i: int|
            1 <= i < s.len() ==> #[trigger] s[i] == s.skip(1)[i - 1]);
    }
}

/// The sum of reported output tokens over assistant bubbles, folded
/// into `acc`, saturating.
pub open spec fn output_sum_acc(acc: u64, s: Seq<RawBubble>) -> u64
    decreases s.len(),
{
    if s.len() == 0 {
        acc
    } else {
        let a2 = if s[0].bubble_type == 2 {
            match s[0].output_tokens {
                Some(v) => crate::sat_add(acc, v),
                None => acc,
            }
        } else {
            acc
        };
        output_sum_acc(a2, s.skip(1))
    }
}

/// The summed assistant turn durations (resolved end minus resolved
/// start), folded into `acc`, saturating.
pub open spec fn bduration_acc(acc: i64, s: Seq<RawBubble>, base: i64) -> i64
    decreases s.len(),
{
    if s.len() == 0 {
        acc
    } else {
        let a2 = if s[0].bubble_type == 2 {
            match (resolve_ts(s[0].start_time, base), resolve_ts(s[0].end_time, base)) {
                (Some(st), Some(en)) => crate::sat_add_i64(acc, (en - st) as i64),
                _ => acc,
            }
        } else {
            acc
        };
        bduration_acc(a2, s.skip(1), base)
    }
}

/// The first non-empty trimmed user text: the first prompt, folded
/// into `acc`.
pub open spec fn bprompt_acc(acc: Seq<char>, s: Seq<RawBubble>) -> Seq<char>
    decreases s.len(),
{
    if s.len() == 0 {
        acc
    } else {
        let tr = crate::text::trim_spec(s[0].text@);
        let a2 = if s[0].bubble_type == 1 && acc.len() == 0 && tr.len() > 0 {
            tr
        } else {
            acc
        };
        bprompt_acc(a2, s.skip(1))
    }
}

/// Human-contributed line count over user bubbles, folded into `acc`.
pub open spec fn bhuman_lines_acc(acc: u64, s: Seq<RawBubble>) -> u64
    decreases s.len(),
{
    if s.len() == 0 {
        acc
    } else {
        let a2 = if s[0].bubble_type == 1 {
            crate::sat_add(acc, crate::text::line_count(crate::text::trim_spec(s[0].text@)) as u64)
        } else {
            acc
        };
        bhuman_lines_acc(a2, s.skip(1))
    }
}

/// Human-contributed word count over user bubbles, folded into `acc`.
pub open spec fn bhuman_words_acc(acc: u64, s: Seq<RawBubble>) -> u64
    decreases s.len(),
{
    if s.len() == 0 {
        acc
    } else {
        let a2 = if s[0].bubble_type == 1 {
            crate::sat_add(acc, crate::text::word_count(crate::text::trim_spec(s[0].text@)) as u64)
        } else {
            acc
        };
        bhuman_words_acc(a2, s.skip(1))
    }
}

/// Human-contributed character count over user bubbles, folded into
/// `acc`.
pub open spec fn bhuman_chars_acc(acc: u64, s: Seq<RawBubble>) -> u64
    decreases s.len(),
{
    if s.len() == 0 {
        acc
    } else {
        let a2 = if s[0].bubble_type == 1 {
            crate::sat_add(acc, crate::text::trim_spec(s[0].text@).len() as u64)
        } else {
            acc
        };
        bhuman_chars_acc(a2, s.skip(1))
    }
}

/// The path a code block contributes to: its filesystem path, then its
/// plain path, else empty.
pub open spec fn block_path(cb: CodeBlock) -> Seq<char> {
    match cb.fs_path {
        Some(p) => p@,
        None => match cb.path {
            Some(p) => p@,
            None => Seq::<char>::empty(),
        },
    }
}

/// Lines added over one bubble's code blocks, folded into `acc`.
pub open spec fn blines_blocks(acc: u64, cbs: Seq<CodeBlock>) -> u64
    decreases cbs.len(),
{
    if cbs.len() == 0 {
        acc
    } else {
        let a2 = match cbs[0].content {
            Some(c) => crate::sat_add(acc, crate::text::line_count(c@) as u64),
            None => acc,
        };
        blines_blocks(a2, cbs.skip(1))
    }
}

/// Lines added over assistant bubbles, folded into `acc`.
pub open spec fn blines_acc(acc: u64, s: Seq<RawBubble>) -> u64
    decreases s.len(),
{
    if s.len() == 0 {
        acc
    } else {
        let a2 = if s[0].bubble_type == 2 {
            blines_blocks(acc, s[0].code_blocks@)
        } else {
            acc
        };
        blines_acc(a2, s.skip(1))
    }
}

/// One file-contribution step for a code block: a block with a content
/// and a non-empty path tallies its line count against the path.
pub open spec fn bfiles_step(acc: Seq<crate::models::FileEntry>, cb: CodeBlock) -> Seq<crate::models::FileEntry> {
    match cb.content {
        Some(c) => {
            let fp = block_path(cb);
            if fp.len() > 0 {
                crate::parser::bump_file_spec(
                    acc,
                    match cb.fs_path {
                        Some(p) => p,
                        None => cb.path.unwrap(),
                    },
                    crate::text::line_count(c@) as u64,
                    0,
                )
            } else {
                acc
            }
        },
        None => acc,
    }
}

/// File contributions over one bubble's code blocks, folded into
/// `acc`.
pub open spec fn bfiles_blocks(acc: Seq<crate::models::FileEntry>, cbs: Seq<CodeBlock>) -> Seq<crate::models::FileEntry>
    decreases cbs.len(),
{
    if cbs.len() == 0 {
        acc
    } else {
        bfiles_blocks(bfiles_step(acc, cbs[0]), cbs.skip(1))
    }
}

/// File contributions over assistant bubbles, folded into `acc`.
pub open spec fn bfiles_acc(acc: Seq<crate::models::FileEntry>, s: Seq<RawBubble>) -> Seq<crate::models::FileEntry>
    decreases s.len(),
{
    if s.len() == 0 {
        acc
    } else {
        let a2 = if s[0].bubble_type == 2 {
            bfiles_blocks(acc, s[0].code_blocks@)
        } else {
            acc
        };
        bfiles_acc(a2, s.skip(1))
    }
}

/// One tool-usage step for a code block: every block with a content
/// and a non-empty path counts one normalized edit invocation.
pub open spec fn btools_step(acc: Seq<crate::models::ToolCount>, cb: CodeBlock, edit_name: String) -> Seq<crate::models::ToolCount> {
    match cb.content {
        Some(c) => {
            if block_path(cb).len() > 0 {
                crate::parser::bump_tool_spec(acc, edit_name)
            } else {
                acc
            }
        },
        None => acc,
    }
}

/// Tool usage over one bubble's code blocks, folded into `acc`.
pub open spec fn btools_blocks(
    acc: Seq<crate::models::ToolCount>,
    cbs: Seq<CodeBlock>,
    edit_name: String,
) -> Seq<crate::models::ToolCount>
    decreases cbs.len(),
{
    if cbs.len() == 0 {
        acc
    } else {
        btools_blocks(btools_step(acc, cbs[0], edit_name), cbs.skip(1), edit_name)
    }
}

/// Tool usage over assistant bubbles, folded into `acc`.
pub open spec fn btools_acc(acc: Seq<crate::models::ToolCount>, s: Seq<RawBubble>, edit_name: String) -> Seq<crate::models::ToolCount>
    decreases s.len(),
{
    if s.len() == 0 {
        acc
    } else {
        let a2 = if s[0].bubble_type == 2 {
            btools_blocks(acc, s[0].code_blocks@, edit_name)
        } else {
            acc
        };
        btools_acc(a2, s.skip(1), edit_name)
    }
}

/// The conversation bubbles of `s` (user or assistant), in order.
pub open spec fn msg_bubbles(s: Seq<RawBubble>) -> Seq<RawBubble>
    decreases s.len(),
{
    if s.len() == 0 {
        Seq::<RawBubble>::empty()
    } else {
        (if s[0].bubble_type == 1 || s[0].bubble_type == 2 {
            seq![s[0]]
        } else {
            Seq::<RawBubble>::empty()
        }) + msg_bubbles(s.skip(1))
    }
}

/// How the `i`-th stored message must relate to the `i`-th
/// conversation bubble: the role follows the type code, the timestamp
/// is the resolved one, a missing bubble id falls back to a
/// source-prefixed session-and-index name, and assistant text is
/// clipped to the display cap.
pub open spec fn bubble_msg_matches(
    m: crate::models::ConversationMessage,
    b: RawBubble,
    i: int,
    base: i64,
    created: Seq<char>,
    sid: Seq<char>,
) -> bool {
    &&& m.timestamp@ == bubble_ts(b, base, created)
    &&& m.usage is None
    &&& m.uuid@ == (match b.bubble_id {
        Some(u) => u@,
        None => "cursor-"@ + sid + "-"@ + crate::text::dec_str(i),
    })
    &&& (if b.bubble_type == 1 {
        m.role@ == "user"@ && m.content@ == b.text@
    } else {
        m.role@ == "assistant"@ && m.content@ == crate::parser::clip(b.text@)
    })
}

/// How a built session must relate to the raw bubbles it was built
/// from, given the resolved creation time of the session.
pub open spec fn cursor_session_matches(
    r: crate::models::ParsedSession,
    bubbles: Seq<RawBubble>,
    sid: Seq<char>,
    pid: Seq<char>,
    created_ms: Option<i64>,
) -> bool {
    let created = match created_ms {
        Some(m) => iso_of_ms(m as int),
        None => Seq::<char>::empty(),
    };
    let base = match created_ms {
        Some(m) => m,
        None => 0,
    };
    let sorted = sort_bubbles_spec(bubbles);
    let kept = msg_bubbles(sorted);
    &&& r.session_id@ == sid
    &&& r.project_id@ == pid
    &&& r.cwd@ == Seq::<char>::empty()
    &&& r.model@ == Seq::<char>::empty()
    &&& r.started_at@ == ({
        let s0 = bstart_acc(Seq::<char>::empty(), sorted, base, created);
        if s0.len() == 0 {
            created
        } else {
            s0
        }
    })
    &&& r.last_active@ == ({
        let l0 = blast_acc(Seq::<char>::empty(), sorted, base, created);
        if l0.len() == 0 {
            created
        } else {
            l0
        }
    })
    &&& r.duration_ms == bduration_acc(0, sorted, base)
    &&& r.total_tokens == (crate::models::TokenTotals {
        input: input_max_acc(0, sorted),
        output: output_sum_acc(0, sorted),
        cache_read: 0,
        cache_creation: 0,
    })
    &&& r.first_prompt@ == bprompt_acc(Seq::<char>::empty(), sorted)
    &&& r.human_lines == bhuman_lines_acc(0, sorted)
    &&& r.human_words == bhuman_words_acc(0, sorted)
    &&& r.human_chars == bhuman_chars_acc(0, sorted)
    &&& r.lines_added == blines_acc(0, sorted)
    &&& r.lines_removed == 0
    &&& r.file_contributions@ == bfiles_acc(Seq::<crate::models::FileEntry>::empty(), sorted)
    &&& (exists|edit_name: String|
        edit_name@ == "Edit"@ && r.tool_usage@ == btools_acc(
            Seq::<crate::models::ToolCount>::empty(),
            sorted,
            edit_name,
        ))
    &&& r.messages@.len() == kept.len()
    &&& (forall|i: int|
        0 <= i < kept.len() ==> bubble_msg_matches(#[trigger] r.messages@[i], kept[i], i, base, created, sid))
    &&& r.source == crate::models::DataSource::Cursor
}

/// Compares two bubbles' sort keys.
fn bubble_le(a: &RawBubble, b: &RawBubble) -> (r: bool)
    ensures
        r == (bubble_key(*a) <= bubble_key(*b)),
{
    let ka: i64 = match a.start_time {
        Some(v) => v,
        None => 0,
    };
    let kb: i64 = match b.start_time {
        Some(v) => v,
        None => 0,
    };
    ka <= kb
}

proof fn lemma_insert_bubble_at(s: Seq<RawBubble>, b: RawBubble, j: int)
    requires
        0 <= j <= s.len(),
        forall|k: int| j <= k < s.len() ==> !(bubble_key(#[trigger] s[k]) <= bubble_key(b)),
        j > 0 ==> bubble_key(s[j - 1]) <= bubble_key(b),
    ensures
        insert_bubble(s, b) == s.subrange(0, j).push(b) + s.subrange(j, s.len() as int),
    decreases s.len(),
{
    if s.len() == 0 {
        assert(insert_bubble(s, b) =~= s.subrange(0, j).push(b) + s.subrange(j, s.len() as int));
    } else if j == s.len() {
        assert(s.subrange(0, j) =~= s);
        assert(s.subrange(j, s.len() as int) =~= Seq::<RawBubble>::empty());
        assert(s.push(b) =~= s.subrange(0, j).push(b) + s.subrange(j, s.len() as int));
    } else {
        let d = s.drop_last();
        assert(forall|k: int| j <= k < d.len() ==> d[k] == s[k]);
        assert(j > 0 ==> d[j - 1] == s[j - 1]);
        lemma_insert_bubble_at(d, b, j);
        assert(d.subrange(0, j) =~= s.subrange(0, j));
        assert((d.subrange(0, j).push(b) + d.subrange(j, d.len() as int)).push(s.last()) =~= s.subrange(
            0,
            j,
        ).push(b) + s.subrange(j, s.len() as int));
    }
}

/// Inserts `b` into the key-sorted `out`.
fn insert_sorted_bubble(out: &mut Vec<RawBubble>, b: RawBubble)
    ensures
        final(out)@ == insert_bubble(old(out)@, b),
{
    let mut j: usize = out.len();
    while j > 0 && !bubble_le(&out[j - 1], &b)
        invariant
            0 <= j <= out@.len(),
            forall|k: int| j <= k < out@.len() ==> !(bubble_key(#[trigger] out@[k]) <= bubble_key(b)),
            out@ == old(out)@,
        decreases j,
    {
        j = j - 1;
    }
    proof {
        lemma_insert_bubble_at(out@, b, j as int);
    }
    out.insert(j, b);
}

/// Stably sorts bubbles by their reported start time.
fn sort_bubbles(input: Vec<RawBubble>) -> (r: Vec<RawBubble>)
    ensures
        r@ == sort_bubbles_spec(input@),
{
    let ghost orig: Seq<RawBubble> = input@;
    let mut rest = input;
    let mut out: Vec<RawBubble> = Vec::new();
    let ghost mut done: Seq<RawBubble> = Seq::<RawBubble>::empty();
    proof {
        assert(done + rest@ =~= orig);
    }
    while rest.len() > 0
        invariant
            done + rest@ == orig,
            out@ == sort_bubbles_spec(done),
        decreases rest@.len(),
    {
        let ghost prev: Seq<RawBubble> = rest@;
        let b = rest.remove(0);
        proof {
            let d2 = done.push(b);
            assert(d2.drop_last() =~= done);
            assert(d2 + rest@ =~= done + prev);
            done = d2;
        }
        insert_sorted_bubble(&mut out, b);
    }
    proof {
        assert(done =~= orig);
    }
    out
}

/// A bubble's resolved timestamp string.
fn bubble_ts_of(b: &RawBubble, base: i64, created: &String) -> (r: String)
    ensures
        r@ == bubble_ts(*b, base, created@),
{
    match crate::timestamp::resolve_timestamp(b.start_time, base) {
        Some(ms) => crate::timestamp::ms_to_iso(ms),
        None => created.clone(),
    }
}

/// The first and last non-empty resolved bubble timestamps.
fn scan_bubble_times(sorted: &Vec<RawBubble>, base: i64, created: &String) -> (r: (String, String))
    ensures
        r.0@ == bstart_acc(Seq::<char>::empty(), sorted@, base, created@),
        r.1@ == blast_acc(Seq::<char>::empty(), sorted@, base, created@),
{
    let n: usize = sorted.len();
    let mut started = String::new();
    let mut last = String::new();
    let mut i: usize = 0;
    proof {
        assert(sorted@.skip(0) =~= sorted@);
    }
    while i < n
        invariant
            n == sorted@.len(),
            0 <= i <= n,
            bstart_acc(started@, sorted@.skip(i as int), base, created@) == bstart_acc(
                Seq::<char>::empty(),
                sorted@,
                base,
                created@,
            ),
            blast_acc(last@, sorted@.skip(i as int), base, created@) == blast_acc(
                Seq::<char>::empty(),
                sorted@,
                base,
                created@,
            ),
        decreases n - i,
    {
        proof {
            assert(sorted@.skip(i as int)[0] == sorted@[i as int]);
            assert(sorted@.skip(i as int).skip(1) =~= sorted@.skip(i as int + 1));
        }
        let ts = bubble_ts_of(&sorted[i], base, created);
        if !ts.as_str().is_empty() {
            if started.as_str().is_empty() {
                started = ts.clone();
            }
            last = ts;
        }
        i = i + 1;
    }
    proof {
        assert(sorted@.skip(n as int) =~= Seq::<RawBubble>::empty());
    }
    (started, last)
}

/// The token totals of the sorted bubbles: a running maximum for the
/// cumulatively reported input, a saturating sum for output.
fn scan_bubble_tokens(sorted: &Vec<RawBubble>) -> (r: crate::models::TokenTotals)
    ensures
        r == (crate::models::TokenTotals {
            input: input_max_acc(0, sorted@),
            output: output_sum_acc(0, sorted@),
            cache_read: 0,
            cache_creation: 0,
        }),
{
    let n: usize = sorted.len();
    let mut input: u64 = 0;
    let mut output: u64 = 0;
    let mut i: usize = 0;
    proof {
        assert(sorted@.skip(0) =~= sorted@);
    }
    while i < n
        invariant
            n == sorted@.len(),
            0 <= i <= n,
            input_max_acc(input, sorted@.skip(i as int)) == input_max_acc(0, sorted@),
            output_sum_acc(output, sorted@.skip(i as int)) == output_sum_acc(0, sorted@),
        decreases n - i,
    {
        proof {
            assert(sorted@.skip(i as int)[0] == sorted@[i as int]);
            assert(sorted@.skip(i as int).skip(1) =~= sorted@.skip(i as int + 1));
        }
        let b = &sorted[i];
        if b.bubble_type == 1 || b.bubble_type == 2 {
            match b.input_tokens {
                Some(v) => {
                    if v > input {
                        input = v;
                    }
                },
                None => {},
            }
        }
        if b.bubble_type == 2 {
            match b.output_tokens {
                Some(v) => {
                    output = crate::sat_add64(output, v);
                },
                None => {},
            }
        }
        i = i + 1;
    }
    proof {
        assert(sorted@.skip(n as int) =~= Seq::<RawBubble>::empty());
    }
    crate::models::TokenTotals { input: input, output: output, cache_read: 0, cache_creation: 0 }
}

/// The summed assistant turn durations of the sorted bubbles.
fn scan_bubble_duration(sorted: &Vec<RawBubble>, base: i64) -> (r: i64)
    ensures
        r == bduration_acc(0, sorted@, base),
{
    let n: usize = sorted.len();
    let mut dur: i64 = 0;
    let mut i: usize = 0;
    proof {
        assert(sorted@.skip(0) =~= sorted@);
    }
    while i < n
        invariant
            n == sorted@.len(),
            0 <= i <= n,
            bduration_acc(dur, sorted@.skip(i as int), base) == bduration_acc(0, sorted@, base),
        decreases n - i,
    {
        proof {
            assert(sorted@.skip(i as int)[0] == sorted@[i as int]);
            assert(sorted@.skip(i as int).skip(1) =~= sorted@.skip(i as int + 1));
        }
        let b = &sorted[i];
        if b.bubble_type == 2 {
            let st = crate::timestamp::resolve_timestamp(b.start_time, base);
            let en = crate::timestamp::resolve_timestamp(b.end_time, base);
            match (st, en) {
                (Some(s0), Some(e0)) => {
                    proof {
                        assert(s0 > 0);
                        assert(e0 > 0);
                    }
                    dur = crate::sat_add64i(dur, e0 - s0);
                },
                _ => {},
            }
        }
        i = i + 1;
    }
    proof {
        assert(sorted@.skip(n as int) =~= Seq::<RawBubble>::empty());
    }
    dur
}

/// The first prompt and the human-contribution counters of the sorted
/// bubbles.
fn scan_bubble_human(sorted: &Vec<RawBubble>) -> (r: (String, u64, u64, u64))
    ensures
        r.0@ == bprompt_acc(Seq::<char>::empty(), sorted@),
        r.1 == bhuman_lines_acc(0, sorted@),
        r.2 == bhuman_words_acc(0, sorted@),
        r.3 == bhuman_chars_acc(0, sorted@),
{
    let n: usize = sorted.len();
    let mut prompt = String::new();
    let mut hl: u64 = 0;
    let mut hw: u64 = 0;
    let mut hc: u64 = 0;
    let mut i: usize = 0;
    proof {
        assert(sorted@.skip(0) =~= sorted@);
    }
    while i < n
        invariant
            n == sorted@.len(),
            0 <= i <= n,
            bprompt_acc(prompt@, sorted@.skip(i as int)) == bprompt_acc(
                Seq::<char>::empty(),
                sorted@,
            ),
            bhuman_lines_acc(hl, sorted@.skip(i as int)) == bhuman_lines_acc(0, sorted@),
            bhuman_words_acc(hw, sorted@.skip(i as int)) == bhuman_words_acc(0, sorted@),
            bhuman_chars_acc(hc, sorted@.skip(i as int)) == bhuman_chars_acc(0, sorted@),
        decreases n - i,
    {
        proof {
            assert(sorted@.skip(i as int)[0] == sorted@[i as int]);
            assert(sorted@.skip(i as int).skip(1) =~= sorted@.skip(i as int + 1));
        }
        let b = &sorted[i];
        if b.bubble_type == 1 {
            let trimmed = crate::text::trim_str(b.text.as_str());
            if prompt.as_str().is_empty() && !trimmed.is_empty() {
                prompt = String::from_str(trimmed);
            }
            let tl = crate::text::count_lines(trimmed);
            let tw = crate::text::count_words(trimmed);
            let tc: usize = trimmed.unicode_len();
            hl = crate::sat_add64(hl, tl);
            hw = crate::sat_add64(hw, tw);
            hc = crate::sat_add64(hc, tc as u64);
        }
        i = i + 1;
    }
    proof {
        assert(sorted@.skip(n as int) =~= Seq::<RawBubble>::empty());
    }
    (prompt, hl, hw, hc)
}

/// Tallies one bubble's code blocks: added lines, per-file
/// contributions, and normalized edit invocations.
fn blocks_accounting(
    cbs: &Vec<CodeBlock>,
    la0: u64,
    files: &mut Vec<crate::models::FileEntry>,
    tools: &mut Vec<crate::models::ToolCount>,
    edit: &String,
) -> (r: u64)
    ensures
        r == blines_blocks(la0, cbs@),
        final(files)@ == bfiles_blocks(old(files)@, cbs@),
        final(tools)@ == btools_blocks(old(tools)@, cbs@, *edit),
{
    let n: usize = cbs.len();
    let mut la: u64 = la0;
    let mut i: usize = 0;
    proof {
        assert(cbs@.skip(0) =~= cbs@);
    }
    while i < n
        invariant
            n == cbs@.len(),
            0 <= i <= n,
            blines_blocks(la, cbs@.skip(i as int)) == blines_blocks(la0, cbs@),
            bfiles_blocks(files@, cbs@.skip(i as int)) == bfiles_blocks(old(files)@, cbs@),
            btools_blocks(tools@, cbs@.skip(i as int), *edit) == btools_blocks(
                old(tools)@,
                cbs@,
                *edit,
            ),
        decreases n - i,
    {
        proof {
            assert(cbs@.skip(i as int)[0] == cbs@[i as int]);
            assert(cbs@.skip(i as int).skip(1) =~= cbs@.skip(i as int + 1));
        }
        let cb = &cbs[i];
        match &cb.content {
            Some(c) => {
                let lines = crate::text::count_lines(c.as_str());
                la = crate::sat_add64(la, lines);
                let fp: Option<&String> = match &cb.fs_path {
                    Some(p) => Some(p),
                    None => match &cb.path {
                        Some(p) => Some(p),
                        None => None,
                    },
                };
                match fp {
                    Some(p) => {
                        if !p.as_str().is_empty() {
                            crate::parser::bump_file(files, p.clone(), lines, 0);
                            crate::parser::bump_tool(tools, edit.clone());
                        }
                    },
                    None => {},
                }
            },
            None => {},
        }
        i = i + 1;
    }
    proof {
        assert(cbs@.skip(n as int) =~= Seq::<CodeBlock>::empty());
    }
    la
}

/// The line, file and tool accounting of the sorted bubbles. `edit`
/// is the shared normalized name every code-block edit counts under.
fn scan_bubble_blocks(sorted: &Vec<RawBubble>, edit: &String) -> (r: (
    u64,
    Vec<crate::models::FileEntry>,
    Vec<crate::models::ToolCount>,
))
    ensures
        r.0 == blines_acc(0, sorted@),
        r.1@ == bfiles_acc(Seq::<crate::models::FileEntry>::empty(), sorted@),
        r.2@ == btools_acc(Seq::<crate::models::ToolCount>::empty(), sorted@, *edit),
{
    let n: usize = sorted.len();
    let mut la: u64 = 0;
    let mut files: Vec<crate::models::FileEntry> = Vec::new();
    let mut tools: Vec<crate::models::ToolCount> = Vec::new();
    let mut i: usize = 0;
    proof {
        assert(sorted@.skip(0) =~= sorted@);
    }
    while i < n
        invariant
            n == sorted@.len(),
            0 <= i <= n,
            blines_acc(la, sorted@.skip(i as int)) == blines_acc(0, sorted@),
            bfiles_acc(files@, sorted@.skip(i as int)) == bfiles_acc(
                Seq::<crate::models::FileEntry>::empty(),
                sorted@,
            ),
            btools_acc(tools@, sorted@.skip(i as int), *edit) == btools_acc(
                Seq::<crate::models::ToolCount>::empty(),
                sorted@,
                *edit,
            ),
        decreases n - i,
    {
        proof {
            assert(sorted@.skip(i as int)[0] == sorted@[i as int]);
            assert(sorted@.skip(i as int).skip(1) =~= sorted@.skip(i as int + 1));
        }
        let b = &sorted[i];
        if b.bubble_type == 2 {
            la = blocks_accounting(&b.code_blocks, la, &mut files, &mut tools, edit);
        }
        i = i + 1;
    }
    proof {
        assert(sorted@.skip(n as int) =~= Seq::<RawBubble>::empty());
    }
    (la, files, tools)
}

/// Builds the stored message list of the sorted bubbles.
fn build_bubble_messages(sorted: &Vec<RawBubble>, base: i64, created: &String, session_id: &str) -> (r: Vec<crate::models::ConversationMessage>)
    ensures
        r@.len() == msg_bubbles(sorted@).len(),
        forall|i: int|
            0 <= i < msg_bubbles(sorted@).len() ==> bubble_msg_matches(
                #[trigger] r@[i],
                msg_bubbles(sorted@)[i],
                i,
                base,
                created@,
                session_id@,
            ),
{
    let n: usize = sorted.len();
    let mut msgs: Vec<crate::models::ConversationMessage> = Vec::new();
    let ghost mut kseq: Seq<RawBubble> = Seq::<RawBubble>::empty();
    let mut i: usize = 0;
    proof {
        assert(sorted@.skip(0) =~= sorted@);
        assert(kseq + msg_bubbles(sorted@) =~= msg_bubbles(sorted@));
    }
    while i < n
        invariant
            n == sorted@.len(),
            0 <= i <= n,
            kseq + msg_bubbles(sorted@.skip(i as int)) == msg_bubbles(sorted@),
            msgs@.len() == kseq.len(),
            forall|k: int|
                0 <= k < kseq.len() ==> bubble_msg_matches(
                    #[trigger] msgs@[k],
                    kseq[k],
                    k,
                    base,
                    created@,
                    session_id@,
                ),
        decreases n - i,
    {
        proof {
            assert(sorted@.skip(i as int)[0] == sorted@[i as int]);
            assert(sorted@.skip(i as int).skip(1) =~= sorted@.skip(i as int + 1));
        }
        let b = &sorted[i];
        if b.bubble_type == 1 || b.bubble_type == 2 {
            let ts = bubble_ts_of(b, base, created);
            let uuid: String = match &b.bubble_id {
                Some(u) => u.clone(),
                None => {
                    let mut u = String::from_str("cursor-");
                    u.append(session_id);
                    u.append("-");
                    let idx = crate::text::u64_to_string(msgs.len() as u64);
                    u.append(idx.as_str());
                    u
                },
            };
            let m: crate::models::ConversationMessage;
            if b.bubble_type == 1 {
                m = crate::models::ConversationMessage {
                    role: String::from_str("user"),
                    timestamp: ts,
                    uuid: uuid,
                    content: b.text.clone(),
                    usage: None,
                };
            } else {
                m = crate::models::ConversationMessage {
                    role: String::from_str("assistant"),
                    timestamp: ts,
                    uuid: uuid,
                    content: crate::parser::clip_text(b.text.clone()),
                    usage: None,
                };
            }
            proof {
                assert(msg_bubbles(sorted@.skip(i as int)) =~= seq![sorted@[i as int]] + msg_bubbles(
                    sorted@.skip(i as int + 1),
                ));
                assert(bubble_msg_matches(m, sorted@[i as int], kseq.len() as int, base, created@, session_id@));
                kseq = kseq.push(sorted@[i as int]);
                assert(kseq + msg_bubbles(sorted@.skip(i as int + 1)) =~= msg_bubbles(sorted@));
            }
            msgs.push(m);
        } else {
            proof {
                assert(msg_bubbles(sorted@.skip(i as int)) =~= msg_bubbles(sorted@.skip(i as int + 1)));
            }
        }
        i = i + 1;
    }
    proof {
        assert(msg_bubbles(sorted@.skip(n as int)) =~= Seq::<RawBubble>::empty());
        assert(kseq =~= msg_bubbles(sorted@));
    }
    msgs
}

/// Builds the canonical session from the raw bubbles of one composer,
/// given the session's resolved creation time.
pub fn build_cursor_session(
    bubbles: Vec<RawBubble>,
    session_id: &str,
    project_id: &str,
    created_ms: Option<i64>,
) -> (r: crate::models::ParsedSession)
    ensures
        cursor_session_matches(r, bubbles@, session_id@, project_id@, created_ms),
{
    let ghost orig: Seq<RawBubble> = bubbles@;
    let created: String = match created_ms {
        Some(m) => crate::timestamp::ms_to_iso(m),
        None => String::new(),
    };
    let base: i64 = match created_ms {
        Some(m) => m,
        None => 0,
    };
    let sorted = sort_bubbles(bubbles);
    let times = scan_bubble_times(&sorted, base, &created);
    let tokens = scan_bubble_tokens(&sorted);
    let duration = scan_bubble_duration(&sorted, base);
    let human = scan_bubble_human(&sorted);
    let edit_str = String::from_str(normalize_tool("edit_file"));
    proof {
        assert(edit_str@ == "Edit"@);
    }
    let blocks = scan_bubble_blocks(&sorted, &edit_str);
    let messages = build_bubble_messages(&sorted, base, &created, session_id);
    let started_at: String = if times.0.as_str().is_empty() {
        created.clone()
    } else {
        times.0
    };
    let last_active: String = if times.1.as_str().is_empty() {
        created.clone()
    } else {
        times.1
    };
    crate::models::ParsedSession {
        session_id: String::from_str(session_id),
        project_id: String::from_str(project_id),
        cwd: String::new(),
        messages: messages,
        tool_usage: blocks.2,
        total_tokens: tokens,
        duration_ms: duration,
        lines_added: blocks.0,
        lines_removed: 0,
        file_contributions: blocks.1,
        first_prompt: human.0,
        started_at: started_at,
        last_active: last_active,
        human_lines: human.1,
        human_words: human.2,
        human_chars: human.3,
        model: String::new(),
        source: crate::models::DataSource::Cursor,
    }
}

// --- Reading raw bubbles and composer heads out of JSON values.

/// Reads one bubble; a record with a field of an unexpected type is
/// refused. Timing fields are read loosely: a non-integer time reads
/// as absent.
fn bubble_of_value(v: &serde_json::Value) -> Option<RawBubble> {
    let bubble_type: i64 = match crate::parser::opt_i64_field(v, "type") {
        Some(Some(t)) => t,
        Some(None) => 0,
        None => {
            return None;
        },
    };
    let text: String = match crate::parser::opt_str_field(v, "text") {
        Some(Some(t)) => t,
        Some(None) => String::new(),
        None => {
            return None;
        },
    };
    let mut input_tokens: Option<u64> = None;
    let mut output_tokens: Option<u64> = None;
    match crate::json::value_get(v, "tokenCount") {
        Some(tc) => {
            if !crate::json::value_is_null(tc) {
                input_tokens = match crate::parser::opt_u64_field(tc, "inputTokens") {
                    Some(x) => x,
                    None => {
                        return None;
                    },
                };
                output_tokens = match crate::parser::opt_u64_field(tc, "outputTokens") {
                    Some(x) => x,
                    None => {
                        return None;
                    },
                };
            }
        },
        None => {},
    }
    let mut code_blocks: Vec<CodeBlock> = Vec::new();
    match crate::json::value_get(v, "codeBlocks") {
        Some(cb) => {
            match crate::json::value_as_array(cb) {
                Some(arr) => {
                    let n: usize = arr.len();
                    let mut i: usize = 0;
                    while i < n
                        invariant
                            n == arr@.len(),
                            0 <= i <= n,
                        decreases n - i,
                    {
                        let e = &arr[i];
                        let uri_fields: (Option<String>, Option<String>) = match crate::json::value_get(
                            e,
                            "uri",
                        ) {
                            Some(u) => (
                                crate::parser::loose_str_field(u, "_fsPath"),
                                crate::parser::loose_str_field(u, "path"),
                            ),
                            None => (None, None),
                        };
                        code_blocks.push(
                            CodeBlock {
                                content: crate::parser::loose_str_field(e, "content"),
                                fs_path: uri_fields.0,
                                path: uri_fields.1,
                            },
                        );
                        i = i + 1;
                    }
                },
                None => {},
            }
        },
        None => {},
    }
    let mut start_time: Option<i64> = None;
    let mut end_time: Option<i64> = None;
    match crate::json::value_get(v, "timingInfo") {
        Some(ti) => {
            start_time = crate::parser::loose_i64_field(ti, "clientStartTime");
            end_time = match crate::parser::loose_i64_field(ti, "clientEndTime") {
                Some(e) => Some(e),
                None => crate::parser::loose_i64_field(ti, "clientSettleTime"),
            };
        },
        None => {},
    }
    let bubble_id: Option<String> = match crate::parser::opt_str_field(v, "bubbleId") {
        Some(x) => x,
        None => {
            return None;
        },
    };
    Some(
        RawBubble {
            bubble_type: bubble_type,
            text: text,
            input_tokens: input_tokens,
            output_tokens: output_tokens,
            code_blocks: code_blocks,
            start_time: start_time,
            end_time: end_time,
            bubble_id: bubble_id,
        },
    )
}

/// The record one stored turn's JSON text parses to: `None` where the
/// text is not valid JSON or a field of the record has an unexpected
/// type. A name for what the parse returns: the same text always
/// yields the same record.
pub uninterp spec fn bubble_of(json: Seq<char>) -> Option<RawBubble>;

/// Relies on serde_json's `from_str`: the parse is a function of the
/// record's text alone. The record reading on top of it —
/// `bubble_of_value` over the pure `Value` accessors — is equally
/// deterministic, so the composite result is the one `bubble_of`
/// names.
#[verifier::external_body]
fn parse_bubble_json(json: &str) -> (r: Option<RawBubble>)
    ensures
        r == bubble_of(json@),
{
    match crate::json::json_from_str(json) {
        Some(v) => bubble_of_value(&v),
        None => None,
    }
}

/// The raw bubbles of a composer's stored records, in order.
pub open spec fn bubble_records(jsons: Seq<String>) -> Seq<RawBubble>
    decreases jsons.len(),
{
    if jsons.len() == 0 {
        Seq::<RawBubble>::empty()
    } else {
        (match bubble_of(jsons[0]@) {
            Some(b) => seq![b],
            None => Seq::<RawBubble>::empty(),
        }) + bubble_records(jsons.skip(1))
    }
}

/// Number of stored records that are refused.
pub open spec fn dropped_records(jsons: Seq<String>) -> int
    decreases jsons.len(),
{
    if jsons.len() == 0 {
        0
    } else {
        (if bubble_of(jsons[0]@) is None {
            1int
        } else {
            0int
        }) + dropped_records(jsons.skip(1))
    }
}

proof fn lemma_dropped_records_bound(jsons: Seq<String>)
    ensures
        0 <= dropped_records(jsons) <= jsons.len(),
    decreases jsons.len(),
{
    if jsons.len() > 0 {
        lemma_dropped_records_bound(jsons.skip(1));
    }
}

/// Parses the bubble records of one composer and builds its session:
/// a record that fails to parse is dropped, and the rest are built
/// faithfully. The session is the one built from exactly the bubbles
/// the records parse to, and the count is exactly the records that
/// were refused.
pub fn parse_cursor_session(
    bubble_jsons: &Vec<String>,
    session_id: &str,
    project_id: &str,
    created_ms: Option<i64>,
) -> (r: (crate::models::ParsedSession, u64))
    ensures
        cursor_session_matches(
            r.0,
            bubble_records(bubble_jsons@),
            session_id@,
            project_id@,
            created_ms,
        ),
        r.1 == dropped_records(bubble_jsons@),
{
    let n: usize = bubble_jsons.len();
    let mut bubbles: Vec<RawBubble> = Vec::new();
    let mut skipped: u64 = 0;
    let mut i: usize = 0;
    proof {
        assert(bubble_jsons@.skip(0) =~= bubble_jsons@);
        assert(bubbles@ + bubble_records(bubble_jsons@) =~= bubble_records(bubble_jsons@));
    }
    while i < n
        invariant
            n == bubble_jsons@.len(),
            0 <= i <= n,
            bubbles@ + bubble_records(bubble_jsons@.skip(i as int)) == bubble_records(
                bubble_jsons@,
            ),
            skipped + dropped_records(bubble_jsons@.skip(i as int)) == dropped_records(
                bubble_jsons@,
            ),
        decreases n - i,
    {
        let ghost suf: Seq<String> = bubble_jsons@.skip(i as int);
        proof {
            assert(suf[0] == bubble_jsons@[i as int]);
            assert(suf.skip(1) =~= bubble_jsons@.skip(i as int + 1));
            lemma_dropped_records_bound(bubble_jsons@);
            lemma_dropped_records_bound(suf.skip(1));
        }
        match parse_bubble_json(bubble_jsons[i].as_str()) {
            Some(b) => {
                proof {
                    assert(bubble_records(suf) =~= seq![b] + bubble_records(suf.skip(1)));
                }
                bubbles.push(b);
                proof {
                    assert(bubbles@ + bubble_records(suf.skip(1)) =~= bubble_records(
                        bubble_jsons@,
                    ));
                }
            },
            None => {
                proof {
                    assert(bubble_records(suf) =~= bubble_records(suf.skip(1)));
                }
                skipped = skipped + 1;
            },
        }
        i = i + 1;
    }
    proof {
        assert(bubble_records(bubble_jsons@.skip(n as int)) =~= Seq::<RawBubble>::empty());
        assert(dropped_records(bubble_jsons@.skip(n as int)) == 0);
        assert(bubbles@ =~= bubbles@ + bubble_records(bubble_jsons@.skip(n as int)));
    }
    let ghost bs: Seq<RawBubble> = bubbles@;
    let session = build_cursor_session(bubbles, session_id, project_id, created_ms);
    let pair: (crate::models::ParsedSession, u64) = (session, skipped);
    proof {
        assert(bs == bubble_records(bubble_jsons@));
        assert(cursor_session_matches(
            pair.0,
            bubble_records(bubble_jsons@),
            session_id@,
            project_id@,
            created_ms,
        ));
        assert(pair.1 == dropped_records(bubble_jsons@));
    }
    pair
}

/// The composer heads a metadata document decodes to: `None` where it
/// is not valid JSON or holds no composer list. A name for what the
/// decode returns: the same text always yields the same heads.
pub uninterp spec fn heads_of(json: Seq<char>) -> Option<Seq<ComposerHead>>;

/// Relies on serde_json's `from_str`: the parse is a function of the
/// document's text alone. The head reading on top of it —
/// `heads_of_value` over the pure `Value` accessors — is equally
/// deterministic, so the composite result is the one `heads_of`
/// names.
#[verifier::external_body]
fn parse_heads_json(json: &str) -> (r: Option<Vec<ComposerHead>>)
    ensures
        match (r, heads_of(json@)) {
            (Some(v), Some(s)) => v@ == s,
            (None, None) => true,
            _ => false,
        },
{
    match crate::json::json_from_str(json) {
        Some(v) => heads_of_value(&v),
        None => None,
    }
}

/// Reads the composer heads out of a composer-metadata JSON document:
/// exactly the heads the document decodes to.
pub fn composers_from_json(json: &str) -> (r: Option<Vec<ComposerHead>>)
    ensures
        match (r, heads_of(json@)) {
            (Some(v), Some(s)) => v@ == s,
            (None, None) => true,
            _ => false,
        },
{
    parse_heads_json(json)
}

/// Reads the composer heads out of a parsed metadata document; any
/// entry without a composer id is left out.
fn heads_of_value(v: &serde_json::Value) -> Option<Vec<ComposerHead>> {
    let arr = match crate::json::value_get(v, "allComposers") {
        Some(a) => match crate::json::value_as_array(a) {
            Some(arr) => arr,
            None => {
                return None;
            },
        },
        None => {
            return None;
        },
    };
    let n: usize = arr.len();
    let mut heads: Vec<ComposerHead> = Vec::new();
    let mut i: usize = 0;
    while i < n
        invariant
            n == arr@.len(),
            0 <= i <= n,
        decreases n - i,
    {
        let e = &arr[i];
        match crate::parser::loose_str_field(e, "composerId") {
            Some(cid) => {
                let created_at = crate::parser::loose_i64_field(e, "createdAt");
                let is_archived: bool = match crate::json::value_get(e, "isArchived") {
                    Some(x) => match crate::json::value_as_bool(x) {
                        Some(b) => b,
                        None => false,
                    },
                    None => false,
                };
                heads.push(
                    ComposerHead {
                        composer_id: cid,
                        created_at: created_at,
                        is_archived: is_archived,
                    },
                );
            },
            None => {},
        }
        i = i + 1;
    }
    Some(heads)
}

/// The first head matching the composer id, if any.
pub open spec fn head_index(s: Seq<ComposerHead>, cid: Seq<char>) -> int
    decreases s.len(),
{
    if s.len() == 0 {
        0
    } else if s[0].composer_id@ == cid {
        0
    } else {
        1 + head_index(s.skip(1), cid)
    }
}

/// The creation time the matching composer head resolves to, by the
/// ambiguous-unit rule.
pub open spec fn created_of_heads(s: Seq<ComposerHead>, cid: Seq<char>) -> Option<i64> {
    let i = head_index(s, cid);
    if i < s.len() {
        match s[i].created_at {
            Some(v) => crate::timestamp::composer_ms(v),
            None => None,
        }
    } else {
        None
    }
}

proof fn lemma_head_index_at(s: Seq<ComposerHead>, cid: Seq<char>, j: int)
    requires
        0 <= j <= s.len(),
        forall|k: int| 0 <= k < j ==> #[trigger] s[k].composer_id@ != cid,
        j < s.len() ==> s[j].composer_id@ == cid,
    ensures
        head_index(s, cid) == j,
    decreases j,
{
    if j > 0 {
        lemma_head_index_at(s.skip(1), cid, j - 1);
    }
}

/// Resolves a session's creation time from the composer heads: the
/// first head with the session's id decides, its creation value read
/// by the ambiguous-unit rule.
pub fn composer_created_from_heads(heads: &Vec<ComposerHead>, composer_id: &str) -> (r: Option<i64>)
    ensures
        r == created_of_heads(heads@, composer_id@),
{
    let n: usize = heads.len();
    let mut i: usize = 0;
    while i < n
        invariant
            n == heads@.len(),
            0 <= i <= n,
            forall|k: int| 0 <= k < i ==> #[trigger] heads@[k].composer_id@ != composer_id@,
        decreases n - i,
    {
        if str_eq(heads[i].composer_id.as_str(), composer_id) {
            proof {
                lemma_head_index_at(heads@, composer_id@, i as int);
            }
            return match heads[i].created_at {
                Some(v) => crate::timestamp::composer_created_ms(v),
                None => None,
            };
        }
        i = i + 1;
    }
    proof {
        lemma_head_index_at(heads@, composer_id@, n as int);
    }
    None
}

} // verus!
