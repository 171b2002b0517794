//! Scanning support and the cross-source project merger: slug and URL
//! decoding, path normalization, composer filtering, and the merge of
//! containers that resolve to the same filesystem path.
use vstd::prelude::*;

use crate::models::{ComposerHead, DataSource, ScannedProject, SessionFile};
use crate::text::str_eq;

verus! {

/// The value of a hexadecimal digit character, or -1.
pub open spec fn hex_digit_val(c: char) -> int {
    if 48 <= c as int && c as int <= 57 {
        c as int - 48
    } else if 97 <= c as int && c as int <= 102 {
        c as int - 87
    } else if 65 <= c as int && c as int <= 70 {
        c as int - 55
    } else {
        -1
    }
}

/// What percent-decoding produces: after a `%`, up to two characters
/// are taken; two valid hex digits decode to one byte, and anything
/// else is kept verbatim behind the `%`.
pub open spec fn url_decode_spec(s: Seq<char>) -> Seq<char>
    decreases s.len(),
{
    if s.len() == 0 {
        Seq::<char>::empty()
    } else if s[0] != '%' {
        seq![s[0]] + url_decode_spec(s.skip(1))
    } else {
        let take = if s.len() - 1 < 2 {
            s.len() - 1
        } else {
            2
        };
        let hex = s.subrange(1, 1 + take);
        let rest = s.skip(1 + take);
        if take == 2 && hex_digit_val(hex[0]) >= 0 && hex_digit_val(hex[1]) >= 0 {
            seq![(((16 * hex_digit_val(hex[0]) + hex_digit_val(hex[1])) as u8) as char)]
                + url_decode_spec(rest)
        } else if take == 1 && hex_digit_val(hex[0]) >= 0 {
            seq![((hex_digit_val(hex[0]) as u8) as char)] + url_decode_spec(rest)
        } else {
            seq!['%'] + hex + url_decode_spec(rest)
        }
    }
}

/// Decides `hex_digit_val`.
fn hex_val(c: char) -> (r: i32)
    ensures
        r as int == hex_digit_val(c),
{
    let u: u32 = c as u32;
    if 48 <= u && u <= 57 {
        (u - 48) as i32
    } else if 97 <= u && u <= 102 {
        (u - 87) as i32
    } else if 65 <= u && u <= 70 {
        (u - 55) as i32
    } else {
        -1
    }
}

/// Percent-decodes `s`.
pub fn url_decode(s: &str) -> (r: String)
    ensures
        r@ == url_decode_spec(s@),
{
    let n: usize = s.unicode_len();
    let mut acc = String::new();
    let mut i: usize = 0;
    proof {
        assert(s@.skip(0) =~= s@);
    }
    while i < n
        invariant
            n == s@.len(),
            0 <= i <= n,
            acc@ + url_decode_spec(s@.skip(i as int)) == url_decode_spec(s@),
        decreases n - i,
    {
        let ghost suf: Seq<char> = s@.skip(i as int);
        proof {
            assert(suf[0] == s@[i as int]);
            assert(suf.skip(1) =~= s@.skip(i as int + 1));
        }
        let c = s.get_char(i);
        if c != '%' {
            crate::text::push_char(&mut acc, c);
            i = i + 1;
        } else {
            let avail: usize = n - i - 1;
            let take: usize = if avail < 2 {
                avail
            } else {
                2
            };
            proof {
                assert(suf.subrange(1, 1 + take as int).len() == take as int);
                assert(forall|k: int|
                    0 <= k < take as int ==> #[trigger] suf.subrange(1, 1 + take as int)[k] == s@[i
                        as int + 1 + k]);
                assert(suf.skip(1 + take as int) =~= s@.skip(i as int + 1 + take as int));
            }
            if take == 2 {
                let h0 = s.get_char(i + 1);
                let h1 = s.get_char(i + 2);
                let v0 = hex_val(h0);
                let v1 = hex_val(h1);
                if v0 >= 0 && v1 >= 0 {
                    let b: u32 = (16 * v0 + v1) as u32;
                    crate::text::push_char(&mut acc, (b as u8) as char);
                } else {
                    crate::text::push_char(&mut acc, '%');
                    crate::text::push_char(&mut acc, h0);
                    crate::text::push_char(&mut acc, h1);
                    proof {
                        assert(seq!['%'] + suf.subrange(1, 3) =~= seq!['%', suf[1], suf[2]]);
                    }
                }
            } else if take == 1 {
                let h0 = s.get_char(i + 1);
                let v0 = hex_val(h0);
                if v0 >= 0 {
                    crate::text::push_char(&mut acc, (v0 as u8) as char);
                } else {
                    crate::text::push_char(&mut acc, '%');
                    crate::text::push_char(&mut acc, h0);
                    proof {
                        assert(seq!['%'] + suf.subrange(1, 2) =~= seq!['%', suf[1]]);
                    }
                }
            } else {
                crate::text::push_char(&mut acc, '%');
                proof {
                    assert(seq!['%'] + suf.subrange(1, 1) =~= seq!['%']);
                }
            }
            i = i + 1 + take;
        }
    }
    proof {
        assert(s@.skip(n as int) =~= Seq::<char>::empty());
        assert(acc@ =~= acc@ + Seq::<char>::empty());
    }
    acc
}

/// Count of trailing path separators.
pub open spec fn trail_slashes(s: Seq<char>) -> int
    decreases s.len(),
{
    if s.len() == 0 || s.last() != '/' {
        0
    } else {
        1 + trail_slashes(s.drop_last())
    }
}

/// A path with its trailing separators stripped: the merge key.
pub open spec fn norm_path(s: Seq<char>) -> Seq<char> {
    s.subrange(0, s.len() - trail_slashes(s))
}

proof fn lemma_trail_slashes(s: Seq<char>, k: int)
    requires
        0 <= k <= s.len(),
        forall|j: int| s.len() - k <= j < s.len() ==> s[j] == '/',
        k < s.len() ==> s[s.len() - 1 - k] != '/',
    ensures
        trail_slashes(s) == k,
    decreases k,
{
    if k > 0 {
        lemma_trail_slashes(s.drop_last(), k - 1);
    }
}

/// Strips trailing separators from a path.
pub fn normalize_path(path: &str) -> (r: String)
    ensures
        r@ == norm_path(path@),
{
    let n: usize = path.unicode_len();
    let mut k: usize = 0;
    while k < n && path.get_char(n - 1 - k) == '/'
        invariant
            n == path@.len(),
            0 <= k <= n,
            forall|j: int| n - k <= j < n ==> path@[j] == '/',
        decreases n - k,
    {
        k = k + 1;
    }
    proof {
        lemma_trail_slashes(path@, k as int);
    }
    String::from_str(path.substring_char(0, n - k))
}

/// Count of leading dashes.
pub open spec fn lead_dashes(s: Seq<char>) -> int
    decreases s.len(),
{
    if s.len() == 0 || s[0] != '-' {
        0
    } else {
        1 + lead_dashes(s.skip(1))
    }
}

/// The filesystem path a slug-encoded project id decodes to: leading
/// dashes stripped, every dash read as a separator, rooted at `/`.
pub open spec fn slug_path(id: Seq<char>) -> Seq<char> {
    seq!['/'] + Seq::new(
        (id.len() - lead_dashes(id)) as nat,
        |i: int| if id[lead_dashes(id) + i] == '-' {
            '/'
        } else {
            id[lead_dashes(id) + i]
        },
    )
}

proof fn lemma_lead_dashes(s: Seq<char>, i: int)
    requires
        0 <= i <= s.len(),
        forall|j: int| 0 <= j < i ==> s[j] == '-',
        i < s.len() ==> s[i] != '-',
    ensures
        lead_dashes(s) == i,
    decreases i,
{
    if i > 0 {
        lemma_lead_dashes(s.skip(1), i - 1);
    }
}

/// The candidate filesystem path a project id decodes to.
pub fn decode_project_id_candidate(id: &str) -> (r: String)
    ensures
        r@ == slug_path(id@),
{
    let n: usize = id.unicode_len();
    let mut lead: usize = 0;
    while lead < n && id.get_char(lead) == '-'
        invariant
            n == id@.len(),
            0 <= lead <= n,
            forall|j: int| 0 <= j < lead ==> id@[j] == '-',
        decreases n - lead,
    {
        lead = lead + 1;
    }
    proof {
        lemma_lead_dashes(id@, lead as int);
    }
    let mut acc = String::new();
    crate::text::push_char(&mut acc, '/');
    let mut i: usize = lead;
    while i < n
        invariant
            n == id@.len(),
            lead == lead_dashes(id@),
            lead <= i <= n,
            acc@ == slug_path(id@).subrange(0, 1 + i - lead),
        decreases n - i,
    {
        let c = id.get_char(i);
        let m: char = if c == '-' {
            '/'
        } else {
            c
        };
        crate::text::push_char(&mut acc, m);
        proof {
            assert(slug_path(id@)[1 + i - lead] == m);
            assert(acc@ =~= slug_path(id@).subrange(0, 1 + i as int + 1 - lead));
        }
        i = i + 1;
    }
    proof {
        assert(slug_path(id@).subrange(0, 1 + n - lead as int) =~= slug_path(id@));
    }
    acc
}

/// Decodes a project id to a path: the decoded candidate where the
/// caller found it to exist on disk, else the raw id, which then
/// simply does not merge.
pub fn decode_project_id(id: &str, candidate_exists: bool) -> (r: String)
    ensures
        r@ == if candidate_exists {
            slug_path(id@)
        } else {
            id@
        },
{
    if candidate_exists {
        decode_project_id_candidate(id)
    } else {
        String::from_str(id)
    }
}

/// The first non-empty string of `s`.
pub open spec fn first_nonempty(s: Seq<String>) -> Seq<char>
    decreases s.len(),
{
    if s.len() == 0 {
        Seq::<char>::empty()
    } else if s[0]@.len() > 0 {
        s[0]@
    } else {
        first_nonempty(s.skip(1))
    }
}

/// Resolves a project's filesystem path: the first non-empty working
/// directory read from its session logs, else the decoded project id.
pub fn resolve_claude_project_dir(cwds: &Vec<String>, project_id: &str, candidate_exists: bool) -> (r: String)
    ensures
        r@ == ({
            let f = first_nonempty(cwds@);
            if f.len() > 0 {
                f
            } else if candidate_exists {
                slug_path(project_id@)
            } else {
                project_id@
            }
        }),
{
    let n: usize = cwds.len();
    let mut i: usize = 0;
    proof {
        assert(cwds@.skip(0) =~= cwds@);
    }
    while i < n
        invariant
            n == cwds@.len(),
            0 <= i <= n,
            first_nonempty(cwds@.skip(i as int)) == first_nonempty(cwds@),
        decreases n - i,
    {
        proof {
            assert(cwds@.skip(i as int)[0] == cwds@[i as int]);
            assert(cwds@.skip(i as int).skip(1) =~= cwds@.skip(i as int + 1));
        }
        if !cwds[i].as_str().is_empty() {
            return cwds[i].clone();
        }
        i = i + 1;
    }
    proof {
        assert(cwds@.skip(n as int) =~= Seq::<String>::empty());
    }
    decode_project_id(project_id, candidate_exists)
}

/// Whether `s` starts with `p`.
pub open spec fn starts_with_spec(s: Seq<char>, p: Seq<char>) -> bool {
    s.len() >= p.len() && s.subrange(0, p.len() as int) == p
}

/// Decides `starts_with_spec`.
pub fn starts_with(s: &str, p: &str) -> (r: bool)
    ensures
        r == starts_with_spec(s@, p@),
{
    let n: usize = s.unicode_len();
    let m: usize = p.unicode_len();
    if n < m {
        return false;
    }
    let head = s.substring_char(0, m);
    str_eq(head, p)
}

/// The project folder a workspace declaration resolves to: remote
/// folders are refused, a `file://` prefix is stripped, the rest is
/// percent-decoded, and an empty result is refused.
pub open spec fn project_folder_spec(s: Seq<char>) -> Option<Seq<char>> {
    if starts_with_spec(s, "vscode-remote://"@) {
        None
    } else {
        let p = if starts_with_spec(s, "file://"@) {
            s.skip("file://"@.len() as int)
        } else {
            s
        };
        let d = url_decode_spec(p);
        if d.len() == 0 {
            None
        } else {
            Some(d)
        }
    }
}

/// Resolves a workspace folder declaration to a project path.
pub fn cursor_project_folder(folder: &str) -> (r: Option<String>)
    ensures
        match r {
            Some(x) => project_folder_spec(folder@) == Some(x@),
            None => project_folder_spec(folder@) is None,
        },
{
    if starts_with(folder, "vscode-remote://") {
        return None;
    }
    let rest: &str = if starts_with(folder, "file://") {
        let n: usize = folder.unicode_len();
        proof {
            reveal_strlit("file://");
        }
        folder.substring_char(7, n)
    } else {
        proof {
            reveal_strlit("file://");
        }
        folder
    };
    proof {
        assert(rest@ == (if starts_with_spec(folder@, "file://"@) {
            folder@.skip(7)
        } else {
            folder@
        }));
    }
    let d = url_decode(rest);
    if d.as_str().is_empty() {
        None
    } else {
        Some(d)
    }
}

/// Whether `cid` is among the composer ids that have bubbles.
pub open spec fn in_ids(ids: Seq<String>, cid: Seq<char>) -> bool {
    exists|i: int| 0 <= i < ids.len() && #[trigger] ids[i]@ == cid
}

/// Decides `in_ids`.
fn contains_id(ids: &Vec<String>, cid: &str) -> (r: bool)
    ensures
        r == in_ids(ids@, cid@),
{
    let n: usize = ids.len();
    let mut i: usize = 0;
    while i < n
        invariant
            n == ids@.len(),
            0 <= i <= n,
            forall|k: int| 0 <= k < i ==> #[trigger] ids@[k]@ != cid@,
        decreases n - i,
    {
        if str_eq(ids[i].as_str(), cid) {
            return true;
        }
        i = i + 1;
    }
    false
}

/// The composer heads that are live sessions: not archived, and with
/// at least one stored bubble.
pub open spec fn active_heads(s: Seq<ComposerHead>, ids: Seq<String>) -> Seq<ComposerHead>
    decreases s.len(),
{
    if s.len() == 0 {
        Seq::<ComposerHead>::empty()
    } else {
        (if !s[0].is_archived && in_ids(ids, s[0].composer_id@) {
            seq![s[0]]
        } else {
            Seq::<ComposerHead>::empty()
        }) + active_heads(s.skip(1), ids)
    }
}

/// Builds the session handles of a workspace's live composers: one
/// handle per active head, all backed by the workspace's store.
pub fn active_cursor_sessions(
    composers: &Vec<ComposerHead>,
    with_bubbles: &Vec<String>,
    db_path: &str,
) -> (r: Vec<SessionFile>)
    ensures
        r@.len() == active_heads(composers@, with_bubbles@).len(),
        forall|i: int|
            0 <= i < r@.len() ==> {
                let h = active_heads(composers@, with_bubbles@)[i];
                &&& (#[trigger] r@[i]).id@ == h.composer_id@
                &&& r@[i].path@ == db_path@
                &&& r@[i].size == 0
                &&& r@[i].source == DataSource::Cursor
            },
{
    let n: usize = composers.len();
    let mut out: Vec<SessionFile> = Vec::new();
    let ghost mut kseq: Seq<ComposerHead> = Seq::<ComposerHead>::empty();
    let mut i: usize = 0;
    proof {
        assert(kseq + active_heads(composers@, with_bubbles@) =~= active_heads(
            composers@,
            with_bubbles@,
        ));
        assert(composers@.skip(0) =~= composers@);
    }
    while i < n
        invariant
            n == composers@.len(),
            0 <= i <= n,
            kseq + active_heads(composers@.skip(i as int), with_bubbles@) == active_heads(
                composers@,
                with_bubbles@,
            ),
            out@.len() == kseq.len(),
            forall|k: int|
                0 <= k < kseq.len() ==> {
                    &&& (#[trigger] out@[k]).id@ == kseq[k].composer_id@
                    &&& out@[k].path@ == db_path@
                    &&& out@[k].size == 0
                    &&& out@[k].source == DataSource::Cursor
                },
        decreases n - i,
    {
        proof {
            assert(composers@.skip(i as int)[0] == composers@[i as int]);
            assert(composers@.skip(i as int).skip(1) =~= composers@.skip(i as int + 1));
        }
        let h = &composers[i];
        if !h.is_archived && contains_id(with_bubbles, h.composer_id.as_str()) {
            proof {
                assert(active_heads(composers@.skip(i as int), with_bubbles@) =~= seq![
                    composers@[i as int],
                ] + active_heads(composers@.skip(i as int + 1), with_bubbles@));
                kseq = kseq.push(composers@[i as int]);
                assert(kseq + active_heads(composers@.skip(i as int + 1), with_bubbles@)
                    =~= active_heads(composers@, with_bubbles@));
            }
            out.push(
                SessionFile {
                    id: h.composer_id.clone(),
                    path: String::from_str(db_path),
                    size: 0,
                    source: DataSource::Cursor,
                },
            );
        } else {
            proof {
                assert(active_heads(composers@.skip(i as int), with_bubbles@) =~= active_heads(
                    composers@.skip(i as int + 1),
                    with_bubbles@,
                ));
            }
        }
        i = i + 1;
    }
    proof {
        assert(active_heads(composers@.skip(n as int), with_bubbles@)
            =~= Seq::<ComposerHead>::empty());
        assert(kseq =~= active_heads(composers@, with_bubbles@));
    }
    out
}

/// The abstract content of a scanned container, over which the merge
/// is specified.
pub struct ProjView {
    pub id: Seq<char>,
    pub dir: Seq<char>,
    pub sources: Seq<DataSource>,
    pub files: Seq<SessionFile>,
}

/// The abstract content of a container.
pub open spec fn proj_view(p: ScannedProject) -> ProjView {
    ProjView { id: p.id@, dir: p.dir@, sources: p.sources@, files: p.session_files@ }
}

/// First index of `acc` whose normalized path is `key`; `acc.len()`
/// if none.
pub open spec fn proj_index(acc: Seq<ProjView>, key: Seq<char>) -> int
    decreases acc.len(),
{
    if acc.len() == 0 {
        0
    } else if norm_path(acc[0].dir) == key {
        0
    } else {
        1 + proj_index(acc.skip(1), key)
    }
}

/// Whether `src` occurs in `s`.
pub open spec fn has_source(s: Seq<DataSource>, src: DataSource) -> bool {
    exists|i: int| 0 <= i < s.len() && #[trigger] s[i] == src
}

/// Appends the sources of `add` that are missing from `acc`, in
/// order: the source-set union of a merge.
pub open spec fn union_sources(acc: Seq<DataSource>, add: Seq<DataSource>) -> Seq<DataSource>
    decreases add.len(),
{
    if add.len() == 0 {
        acc
    } else {
        union_sources(
            if has_source(acc, add[0]) {
                acc
            } else {
                acc.push(add[0])
            },
            add.skip(1),
        )
    }
}

/// One merge step: a container whose normalized path is already
/// present is folded into that entry — session handles concatenated,
/// sources united — and a new path starts its own entry.
pub open spec fn merge_step(acc: Seq<ProjView>, p: ProjView) -> Seq<ProjView> {
    let key = norm_path(p.dir);
    let i = proj_index(acc, key);
    if i < acc.len() {
        acc.update(
            i,
            ProjView {
                id: acc[i].id,
                dir: acc[i].dir,
                sources: union_sources(acc[i].sources, p.sources),
                files: acc[i].files + p.files,
            },
        )
    } else {
        acc.push(p)
    }
}

/// Merges a list of containers left to right.
pub open spec fn merge_acc(acc: Seq<ProjView>, s: Seq<ProjView>) -> Seq<ProjView>
    decreases s.len(),
{
    if s.len() == 0 {
        acc
    } else {
        merge_acc(merge_step(acc, s[0]), s.skip(1))
    }
}

/// No two containers of `s` share a normalized path.
pub open spec fn distinct_paths(s: Seq<ProjView>) -> bool {
    forall|i: int, j: int|
        0 <= i < s.len() && 0 <= j < s.len() && i != j ==> norm_path(
            (#[trigger] s[i]).dir,
        ) != norm_path((#[trigger] s[j]).dir)
}

proof fn lemma_proj_index_props(s: Seq<ProjView>, key: Seq<char>)
    ensures
        0 <= proj_index(s, key) <= s.len(),
        proj_index(s, key) < s.len() ==> norm_path(s[proj_index(s, key)].dir) == key,
        proj_index(s, key) == s.len() ==> forall|k: int|
            0 <= k < s.len() ==> norm_path((#[trigger] s[k]).dir) != key,
    decreases s.len(),
{
    if s.len() > 0 && norm_path(s[0].dir) != key {
        lemma_proj_index_props(s.skip(1), key);
        assert(forall|k: int|
            1 <= k < s.len() ==> #[trigger] s[k] == s.skip(1)[k - 1]);
    }
}

/// Law: merging keeps normalized paths unique — containers that share
/// a path fold into one entry, so each path names exactly one merged
/// project.
pub proof fn lemma_merge_paths_unique(acc: Seq<ProjView>, s: Seq<ProjView>)
    requires
        distinct_paths(acc),
    ensures
        distinct_paths(merge_acc(acc, s)),
    decreases s.len(),
{
    if s.len() > 0 {
        let key = norm_path(s[0].dir);
        lemma_proj_index_props(acc, key);
        let st = merge_step(acc, s[0]);
        assert(distinct_paths(st)) by {
            let i0 = proj_index(acc, key);
            if i0 < acc.len() {
                assert(forall|k: int|
                    0 <= k < st.len() ==> norm_path((#[trigger] st[k]).dir) == norm_path(
                        acc[k].dir,
                    ));
            } else {
                assert(forall|k: int| 0 <= k < acc.len() ==> #[trigger] st[k] == acc[k]);
                assert(st[acc.len() as int] == s[0]);
            }
        }
        lemma_merge_paths_unique(st, s.skip(1));
    }
}

proof fn lemma_proj_index_at(s: Seq<ProjView>, key: Seq<char>, j: int)
    requires
        0 <= j <= s.len(),
        forall|k: int| 0 <= k < j ==> norm_path(#[trigger] s[k].dir) != key,
        j < s.len() ==> norm_path(s[j].dir) == key,
    ensures
        proj_index(s, key) == j,
    decreases j,
{
    if j > 0 {
        lemma_proj_index_at(s.skip(1), key, j - 1);
    }
}

/// Finds the first merged entry whose normalized path is `key`.
fn find_project(out: &Vec<ScannedProject>, key: &String) -> (r: usize)
    ensures
        r as int == proj_index(out@.map_values(|q: ScannedProject| proj_view(q)), key@),
        r <= out@.len(),
{
    let ghost outv: Seq<ProjView> = out@.map_values(|q: ScannedProject| proj_view(q));
    let n: usize = out.len();
    let mut j: usize = 0;
    while j < n
        invariant
            n == out@.len(),
            0 <= j <= n,
            outv == out@.map_values(|q: ScannedProject| proj_view(q)),
            forall|k: int| 0 <= k < j ==> norm_path(#[trigger] outv[k].dir) != key@,
        decreases n - j,
    {
        let nk = normalize_path(out[j].dir.as_str());
        proof {
            assert(outv[j as int].dir == out@[j as int].dir@);
        }
        if str_eq(nk.as_str(), key.as_str()) {
            proof {
                lemma_proj_index_at(outv, key@, j as int);
            }
            return j;
        }
        j = j + 1;
    }
    proof {
        lemma_proj_index_at(outv, key@, n as int);
    }
    n
}

/// Decides `has_source`.
fn contains_source(s: &Vec<DataSource>, src: DataSource) -> (r: bool)
    ensures
        r == has_source(s@, src),
{
    let n: usize = s.len();
    let mut i: usize = 0;
    while i < n
        invariant
            n == s@.len(),
            0 <= i <= n,
            forall|k: int| 0 <= k < i ==> #[trigger] s@[k] != src,
        decreases n - i,
    {
        if s[i] == src {
            return true;
        }
        i = i + 1;
    }
    false
}

/// Unites the sources of a merged container into `acc`.
fn union_sources_exec(acc: &mut Vec<DataSource>, add: &Vec<DataSource>)
    ensures
        final(acc)@ == union_sources(old(acc)@, add@),
{
    let n: usize = add.len();
    let mut i: usize = 0;
    proof {
        assert(add@.skip(0) =~= add@);
    }
    while i < n
        invariant
            n == add@.len(),
            0 <= i <= n,
            union_sources(acc@, add@.skip(i as int)) == union_sources(old(acc)@, add@),
        decreases n - i,
    {
        proof {
            assert(add@.skip(i as int)[0] == add@[i as int]);
            assert(add@.skip(i as int).skip(1) =~= add@.skip(i as int + 1));
        }
        let src = add[i];
        if !contains_source(acc, src) {
            acc.push(src);
        }
        i = i + 1;
    }
    proof {
        assert(add@.skip(n as int) =~= Seq::<DataSource>::empty());
    }
}

/// Merges the scanned containers of both sources: containers sharing
/// a normalized path become one project whose session handles are
/// concatenated and whose source set is the union; the rest stay
/// distinct, in arrival order.
pub fn scan_all_projects(claude_projects: Vec<ScannedProject>, cursor_projects: Vec<ScannedProject>) -> (r: Vec<ScannedProject>)
    ensures
        r@.map_values(|p: ScannedProject| proj_view(p)) == merge_acc(
            Seq::<ProjView>::empty(),
            (claude_projects@ + cursor_projects@).map_values(|p: ScannedProject| proj_view(p)),
        ),
{
    let mut rest = claude_projects;
    let mut tail = cursor_projects;
    let ghost allv: Seq<ProjView> = (rest@ + tail@).map_values(|p: ScannedProject| proj_view(p));
    rest.append(&mut tail);
    proof {
        assert(rest@.map_values(|p: ScannedProject| proj_view(p)) =~= allv);
    }
    let mut out: Vec<ScannedProject> = Vec::new();
    proof {
        assert(out@.map_values(|p: ScannedProject| proj_view(p)) =~= Seq::<ProjView>::empty());
    }
    while rest.len() > 0
        invariant
            merge_acc(
                out@.map_values(|p: ScannedProject| proj_view(p)),
                rest@.map_values(|p: ScannedProject| proj_view(p)),
            ) == merge_acc(Seq::<ProjView>::empty(), allv),
        decreases rest@.len(),
    {
        let ghost prev: Seq<ScannedProject> = rest@;
        let ghost outv: Seq<ProjView> = out@.map_values(|p: ScannedProject| proj_view(p));
        let p = rest.remove(0);
        proof {
            assert(prev[0] == p);
            assert(prev.skip(1) =~= rest@);
            assert(prev.map_values(|q: ScannedProject| proj_view(q)).skip(1) =~= rest@.map_values(
                |q: ScannedProject| proj_view(q),
            ));
            assert(prev.map_values(|q: ScannedProject| proj_view(q))[0] == proj_view(p));
        }
        let key = normalize_path(p.dir.as_str());
        let j: usize = find_project(&out, &key);
        proof {
            assert(outv == out@.map_values(|q: ScannedProject| proj_view(q)));
        }
        if j < out.len() {
            let mut entry = out.remove(j);
            let mut pfiles = p.session_files;
            entry.session_files.append(&mut pfiles);
            union_sources_exec(&mut entry.sources, &p.sources);
            proof {
                assert(proj_view(entry) == merge_step(outv, proj_view(p))[j as int]);
            }
            out.insert(j, entry);
            proof {
                assert(out@.map_values(|q: ScannedProject| proj_view(q)) =~= merge_step(
                    outv,
                    proj_view(p),
                ));
            }
        } else {
            out.push(p);
            proof {
                assert(out@.map_values(|q: ScannedProject| proj_view(q)) =~= merge_step(
                    outv,
                    proj_view(p),
                ));
            }
        }
    }
    proof {
        assert(rest@.map_values(|p: ScannedProject| proj_view(p)) =~= Seq::<ProjView>::empty());
        assert(out@.map_values(|p: ScannedProject| proj_view(p)) =~= merge_acc(
            out@.map_values(|p: ScannedProject| proj_view(p)),
            rest@.map_values(|p: ScannedProject| proj_view(p)),
        ));
    }
    out
}

} // verus!
