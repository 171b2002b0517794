//! The line-oriented log normalizer: partitions raw events, deduplicates
//! assistant records by message id, orders messages by timestamp, and
//! accumulates token, line and tool accounting into a `ParsedSession`.
use vstd::prelude::*;

use crate::models::{ContentBlock, RawContent, RawEvent, RawMessage, TokenUsage};
use crate::text::{lex_le, str_le, str_eq};

verus! {

/// One kept event, tagged with which side of the conversation it is.
#[derive(Debug)]
pub struct TaggedEvent {
    pub is_user: bool,
    pub event: RawEvent,
}

/// An event's timestamp view, absent rendered as the empty sequence.
pub open spec fn ev_ts(e: RawEvent) -> Seq<char> {
    match e.timestamp {
        Some(t) => t@,
        None => Seq::<char>::empty(),
    }
}

/// Whether an event is a user record that carries a user message.
pub open spec fn is_user_event(e: RawEvent) -> bool {
    e.event_type@ == "user"@ && match e.message {
        Some(m) => m.role@ == "user"@,
        None => false,
    }
}

/// Whether an event is an assistant record that carries an assistant
/// message.
pub open spec fn is_assistant_event(e: RawEvent) -> bool {
    e.event_type@ == "assistant"@ && match e.message {
        Some(m) => m.role@ == "assistant"@,
        None => false,
    }
}

/// The message id of an assistant event, if it has one.
pub open spec fn msg_id(e: RawEvent) -> Option<String> {
    match e.message {
        Some(m) => m.id,
        None => None,
    }
}

/// The user events of `evs`, in order, tagged.
pub open spec fn user_events(evs: Seq<RawEvent>) -> Seq<TaggedEvent>
    decreases evs.len(),
{
    if evs.len() == 0 {
        Seq::<TaggedEvent>::empty()
    } else {
        (if is_user_event(evs[0]) {
            seq![TaggedEvent { is_user: true, event: evs[0] }]
        } else {
            Seq::<TaggedEvent>::empty()
        }) + user_events(evs.skip(1))
    }
}

/// The assistant events of `evs`, in order, tagged.
pub open spec fn assistant_events(evs: Seq<RawEvent>) -> Seq<TaggedEvent>
    decreases evs.len(),
{
    if evs.len() == 0 {
        Seq::<TaggedEvent>::empty()
    } else {
        (if is_assistant_event(evs[0]) {
            seq![TaggedEvent { is_user: false, event: evs[0] }]
        } else {
            Seq::<TaggedEvent>::empty()
        }) + assistant_events(evs.skip(1))
    }
}

/// Whether a tagged event carries message id `id`.
pub open spec fn has_msg_id(t: TaggedEvent, id: Seq<char>) -> bool {
    match msg_id(t.event) {
        Some(i) => i@ == id,
        None => false,
    }
}

/// First index in `acc` holding an assistant event with message id
/// `id`; `acc.len()` if there is none.
pub open spec fn id_index(acc: Seq<TaggedEvent>, id: Seq<char>) -> int
    decreases acc.len(),
{
    if acc.len() == 0 {
        0
    } else if has_msg_id(acc[0], id) {
        0
    } else {
        1 + id_index(acc.skip(1), id)
    }
}

/// One deduplication step: an event with a message id already present
/// overwrites the earlier record in place (last write wins, first
/// position kept); any other event is appended.
pub open spec fn dedup_step(acc: Seq<TaggedEvent>, t: TaggedEvent) -> Seq<TaggedEvent> {
    match msg_id(t.event) {
        None => acc.push(t),
        Some(id) => {
            let i = id_index(acc, id@);
            if i < acc.len() {
                acc.update(i, t)
            } else {
                acc.push(t)
            }
        },
    }
}

/// Deduplicates `s` into `acc`, left to right.
pub open spec fn dedup_events(acc: Seq<TaggedEvent>, s: Seq<TaggedEvent>) -> Seq<TaggedEvent>
    decreases s.len(),
{
    if s.len() == 0 {
        acc
    } else {
        dedup_events(dedup_step(acc, s[0]), s.skip(1))
    }
}

/// Whether any event of `s` carries message id `id`.
pub open spec fn has_any_id(s: Seq<TaggedEvent>, id: Seq<char>) -> bool {
    exists|i: int| 0 <= i < s.len() && has_msg_id(#[trigger] s[i], id)
}

/// At most one event of `s` carries message id `id`.
pub open spec fn unique_id(s: Seq<TaggedEvent>, id: Seq<char>) -> bool {
    forall|i: int, j: int|
        0 <= i < s.len() && 0 <= j < s.len() && has_msg_id(#[trigger] s[i], id) && has_msg_id(
            #[trigger] s[j],
            id,
        ) ==> i == j
}

proof fn lemma_id_index_props(s: Seq<TaggedEvent>, id: Seq<char>)
    ensures
        0 <= id_index(s, id) <= s.len(),
        id_index(s, id) < s.len() ==> has_msg_id(s[id_index(s, id)], id),
        forall|k: int| 0 <= k < id_index(s, id) ==> !has_msg_id(#[trigger] s[k], id),
        id_index(s, id) == s.len() ==> !has_any_id(s, id),
    decreases s.len(),
{
    if s.len() > 0 && !has_msg_id(s[0], id) {
        lemma_id_index_props(s.skip(1), id);
        assert(forall|k: int|
            1 <= k < s.len() ==> #[trigger] s[k] == s.skip(1)[k - 1]);
        if id_index(s, id) == s.len() {
            assert forall|i: int| 0 <= i < s.len() implies !has_msg_id(#[trigger] s[i], id) by {
                if i > 0 {
                    assert(s[i] == s.skip(1)[i - 1]);
                }
            }
        }
    }
}

proof fn lemma_dedup_step_id(acc: Seq<TaggedEvent>, t: TaggedEvent, id: Seq<char>)
    requires
        unique_id(acc, id),
    ensures
        ({
            let d = dedup_step(acc, t);
            &&& unique_id(d, id)
            &&& (has_msg_id(t, id) ==> has_any_id(d, id) && d[id_index(d, id)] == t)
            &&& (!has_msg_id(t, id) ==> (has_any_id(d, id) <==> has_any_id(acc, id)))
            &&& (!has_msg_id(t, id) && has_any_id(acc, id) ==> d[id_index(d, id)] == acc[id_index(
                acc,
                id,
            )])
        }),
{
    let d = dedup_step(acc, t);
    lemma_id_index_props(acc, id);
    match msg_id(t.event) {
        None => {
            lemma_push_keeps_id(acc, t, id);
        },
        Some(x) => {
            lemma_id_index_props(acc, x@);
            let i2 = id_index(acc, x@);
            if x@ == id {
                if i2 < acc.len() {
                    assert(d == acc.update(i2, t));
                    assert forall|k: int|
                        0 <= k < d.len() && k != i2 implies !has_msg_id(#[trigger] d[k], id) by {
                        assert(d[k] == acc[k]);
                        if has_msg_id(acc[k], id) {
                            assert(has_msg_id(acc[i2], id));
                        }
                    }
                    assert(has_msg_id(d[i2], id));
                    lemma_id_index_at_generic(d, id, i2);
                } else {
                    assert(d == acc.push(t));
                    assert(!has_any_id(acc, id));
                    assert forall|k: int| 0 <= k < acc.len() implies !has_msg_id(
                        #[trigger] d[k],
                        id,
                    ) by {
                        assert(d[k] == acc[k]);
                    }
                    assert(has_msg_id(d[acc.len() as int], id));
                    lemma_id_index_at_generic(d, id, acc.len() as int);
                }
            } else {
                if i2 < acc.len() {
                    assert(d == acc.update(i2, t));
                    assert(has_msg_id(acc[i2], x@));
                    assert(!has_msg_id(acc[i2], id));
                    assert(!has_msg_id(t, id));
                    assert forall|k: int| 0 <= k < d.len() implies has_msg_id(#[trigger] d[k], id)
                        == has_msg_id(acc[k], id) by {
                        if k != i2 {
                            assert(d[k] == acc[k]);
                        }
                    }
                    if has_any_id(acc, id) {
                        let fi = id_index(acc, id);
                        assert(has_msg_id(d[fi], id));
                        lemma_id_index_at_generic(d, id, fi);
                        assert(d[fi] == acc[fi]);
                    }
                } else {
                    lemma_push_keeps_id(acc, t, id);
                }
            }
        },
    }
}

proof fn lemma_push_keeps_id(acc: Seq<TaggedEvent>, t: TaggedEvent, id: Seq<char>)
    requires
        unique_id(acc, id),
        !has_msg_id(t, id),
    ensures
        ({
            let d = acc.push(t);
            &&& unique_id(d, id)
            &&& (has_any_id(d, id) <==> has_any_id(acc, id))
            &&& (has_any_id(acc, id) ==> d[id_index(d, id)] == acc[id_index(acc, id)])
        }),
{
    let d = acc.push(t);
    lemma_id_index_props(acc, id);
    assert(forall|k: int| 0 <= k < acc.len() ==> #[trigger] d[k] == acc[k]);
    assert(d[acc.len() as int] == t);
    assert forall|k: int| 0 <= k < d.len() && has_msg_id(#[trigger] d[k], id) implies k
        < acc.len() && has_msg_id(acc[k], id) by {
        if k == acc.len() {
            assert(!has_msg_id(t, id));
        }
    }
    if has_any_id(acc, id) {
        let fi = id_index(acc, id);
        assert(has_msg_id(d[fi], id));
        lemma_id_index_at_generic(d, id, fi);
    }
}

proof fn lemma_id_index_at_generic(s: Seq<TaggedEvent>, id: Seq<char>, j: int)
    requires
        0 <= j <= s.len(),
        forall|k: int| 0 <= k < j ==> !has_msg_id(#[trigger] s[k], id),
        j < s.len() ==> has_msg_id(s[j], id),
    ensures
        id_index(s, id) == j,
    decreases j,
{
    if j > 0 {
        assert(forall|k: int|
            0 <= k < j - 1 ==> #[trigger] s.skip(1)[k] == s[k + 1]);
        lemma_id_index_at_generic(s.skip(1), id, j - 1);
    }
}

proof fn lemma_dedup_events_id(acc: Seq<TaggedEvent>, s: Seq<TaggedEvent>, id: Seq<char>)
    requires
        unique_id(acc, id),
    ensures
        ({
            let d = dedup_events(acc, s);
            &&& unique_id(d, id)
            &&& (has_any_id(s, id) ==> has_any_id(d, id) && d[id_index(d, id)] == last_id_event(
                s,
                id,
            ))
            &&& (!has_any_id(s, id) ==> (has_any_id(d, id) <==> has_any_id(acc, id)))
            &&& (!has_any_id(s, id) && has_any_id(acc, id) ==> d[id_index(d, id)] == acc[id_index(
                acc,
                id,
            )])
        }),
    decreases s.len(),
{
    if s.len() == 0 {
    } else {
        let acc2 = dedup_step(acc, s[0]);
        lemma_dedup_step_id(acc, s[0], id);
        lemma_dedup_events_id(acc2, s.skip(1), id);
        assert(forall|i: int|
            0 <= i < s.skip(1).len() ==> #[trigger] s.skip(1)[i] == s[i + 1]);
        if has_any_id(s, id) {
            if has_any_id(s.skip(1), id) {
                assert(last_id_event(s, id) == last_id_event(s.skip(1), id));
            } else {
                let w = choose|i: int| 0 <= i < s.len() && has_msg_id(#[trigger] s[i], id);
                if w > 0 {
                    assert(s.skip(1)[w - 1] == s[w]);
                    assert(has_any_id(s.skip(1), id));
                }
                assert(has_msg_id(s[0], id));
                assert(last_id_event(s, id) == s[0]);
            }
        } else {
            assert(!has_msg_id(s[0], id)) by {
                if has_msg_id(s[0], id) {
                    assert(has_any_id(s, id));
                }
            }
            assert forall|i: int| 0 <= i < s.skip(1).len() implies !has_msg_id(
                #[trigger] s.skip(1)[i],
                id,
            ) by {
                assert(s.skip(1)[i] == s[i + 1]);
                if has_msg_id(s[i + 1], id) {
                    assert(has_any_id(s, id));
                }
            }
            assert(!has_any_id(s.skip(1), id));
        }
    }
}

/// The last event of `s` that carries message id `id`.
pub open spec fn last_id_event(s: Seq<TaggedEvent>, id: Seq<char>) -> TaggedEvent
    decreases s.len(),
{
    if s.len() == 0 {
        arbitrary()
    } else if has_any_id(s.skip(1), id) {
        last_id_event(s.skip(1), id)
    } else {
        s[0]
    }
}

/// Law: deduplication keeps, for any message id, exactly one record —
/// the last one written with that id, standing at the first position
/// that id appeared at. `k` names the last record of `s` carrying the
/// id.
pub proof fn lemma_dedup_last_write_wins(s: Seq<TaggedEvent>, id: Seq<char>, k: int)
    requires
        0 <= k < s.len(),
        has_msg_id(s[k], id),
        forall|j: int| k < j < s.len() ==> !has_msg_id(#[trigger] s[j], id),
    ensures
        ({
            let d = dedup_events(Seq::<TaggedEvent>::empty(), s);
            &&& has_any_id(d, id)
            &&& d[id_index(d, id)] == s[k]
            &&& unique_id(d, id)
        }),
{
    lemma_dedup_events_id(Seq::<TaggedEvent>::empty(), s, id);
    lemma_last_id_event_at(s, id, k);
}

proof fn lemma_last_id_event_at(s: Seq<TaggedEvent>, id: Seq<char>, k: int)
    requires
        0 <= k < s.len(),
        has_msg_id(s[k], id),
        forall|j: int| k < j < s.len() ==> !has_msg_id(#[trigger] s[j], id),
    ensures
        last_id_event(s, id) == s[k],
    decreases s.len(),
{
    assert(forall|i: int|
        0 <= i < s.skip(1).len() ==> #[trigger] s.skip(1)[i] == s[i + 1]);
    if k == 0 {
        if has_any_id(s.skip(1), id) {
            let w = choose|i: int| 0 <= i < s.skip(1).len() && has_msg_id(#[trigger] s.skip(1)[i], id);
            assert(s.skip(1)[w] == s[w + 1]);
            assert(false);
        }
        assert(last_id_event(s, id) == s[0]);
    } else {
        assert(s.skip(1)[k - 1] == s[k]);
        assert(has_any_id(s.skip(1), id));
        lemma_last_id_event_at(s.skip(1), id, k - 1);
    }
}

/// Inserts `t` into the timestamp-sorted `s`, after any entry whose
/// timestamp is not greater, so that insertion keeps arrival order
/// among equal timestamps.
pub open spec fn insert_by_ts(s: Seq<TaggedEvent>, t: TaggedEvent) -> Seq<TaggedEvent>
    decreases s.len(),
{
    if s.len() == 0 {
        seq![t]
    } else if lex_le(ev_ts(s.last().event), ev_ts(t.event)) {
        s.push(t)
    } else {
        insert_by_ts(s.drop_last(), t).push(s.last())
    }
}

/// Stable insertion sort of tagged events by timestamp.
pub open spec fn sort_by_ts(s: Seq<TaggedEvent>) -> Seq<TaggedEvent>
    decreases s.len(),
{
    if s.len() == 0 {
        Seq::<TaggedEvent>::empty()
    } else {
        insert_by_ts(sort_by_ts(s.drop_last()), s.last())
    }
}

/// The canonical message order of `evs`: user events in arrival order,
/// then id-deduplicated assistant events, stably sorted by timestamp.
pub open spec fn ordered_events(evs: Seq<RawEvent>) -> Seq<TaggedEvent> {
    sort_by_ts(user_events(evs) + dedup_events(Seq::<TaggedEvent>::empty(), assistant_events(evs)))
}

/// What `strip_html` keeps of `s`, starting inside or outside a tag:
/// everything between `<` and `>` is dropped, the brackets included.
pub open spec fn strip_from(s: Seq<char>, in_tag: bool) -> Seq<char>
    decreases s.len(),
{
    if s.len() == 0 {
        Seq::<char>::empty()
    } else if s[0] == '<' {
        strip_from(s.skip(1), true)
    } else if s[0] == '>' {
        strip_from(s.skip(1), false)
    } else if in_tag {
        strip_from(s.skip(1), true)
    } else {
        seq![s[0]] + strip_from(s.skip(1), false)
    }
}

/// `s` with markup tags removed.
pub open spec fn strip_tags(s: Seq<char>) -> Seq<char> {
    strip_from(s, false)
}

/// Removes markup tags from `s`.
pub fn strip_html(s: &str) -> (r: String)
    ensures
        r@ == strip_tags(s@),
{
    let n: usize = s.unicode_len();
    let mut acc = String::new();
    let mut in_tag: bool = false;
    let mut i: usize = 0;
    proof {
        assert(s@.skip(0) =~= s@);
    }
    while i < n
        invariant
            n == s@.len(),
            0 <= i <= n,
            acc@ + strip_from(s@.skip(i as int), in_tag) == strip_tags(s@),
        decreases n - i,
    {
        let c = s.get_char(i);
        proof {
            assert(s@.skip(i as int)[0] == s@[i as int]);
            assert(s@.skip(i as int).skip(1) =~= s@.skip(i as int + 1));
        }
        if c == '<' {
            in_tag = true;
        } else if c == '>' {
            in_tag = false;
        } else if !in_tag {
            crate::text::push_char(&mut acc, c);
        }
        i = i + 1;
    }
    proof {
        assert(s@.skip(n as int) =~= Seq::<char>::empty());
        assert(acc@ =~= acc@ + Seq::<char>::empty());
    }
    acc
}

/// The words of `s` joined by single spaces, as splitting on whitespace
/// and rejoining would produce. `any` records whether a word has been
/// emitted, `in_word` whether the previous character was part of one.
pub open spec fn words_from(s: Seq<char>, any: bool, in_word: bool) -> Seq<char>
    decreases s.len(),
{
    if s.len() == 0 {
        Seq::<char>::empty()
    } else if crate::text::is_space(s[0]) {
        words_from(s.skip(1), any, false)
    } else if in_word {
        seq![s[0]] + words_from(s.skip(1), true, true)
    } else {
        (if any {
            seq![' ']
        } else {
            Seq::<char>::empty()
        }) + seq![s[0]] + words_from(s.skip(1), true, true)
    }
}

/// `s` collapsed to single-space-separated words.
pub open spec fn squash_ws(s: Seq<char>) -> Seq<char> {
    words_from(s, false, false)
}

/// Collapses whitespace runs of `s` into single spaces and trims the
/// ends, as joining `split_whitespace` with one space does.
pub fn squash_whitespace(s: &str) -> (r: String)
    ensures
        r@ == squash_ws(s@),
{
    let n: usize = s.unicode_len();
    let mut acc = String::new();
    let mut any: bool = false;
    let mut in_word: bool = false;
    let mut i: usize = 0;
    proof {
        assert(s@.skip(0) =~= s@);
    }
    while i < n
        invariant
            n == s@.len(),
            0 <= i <= n,
            acc@ + words_from(s@.skip(i as int), any, in_word) == squash_ws(s@),
        decreases n - i,
    {
        let c = s.get_char(i);
        proof {
            assert(s@.skip(i as int)[0] == s@[i as int]);
            assert(s@.skip(i as int).skip(1) =~= s@.skip(i as int + 1));
        }
        if crate::text::is_space_char(c) {
            in_word = false;
        } else {
            if !in_word && any {
                crate::text::push_char(&mut acc, ' ');
            }
            crate::text::push_char(&mut acc, c);
            any = true;
            in_word = true;
        }
        i = i + 1;
    }
    proof {
        assert(s@.skip(n as int) =~= Seq::<char>::empty());
        assert(acc@ =~= acc@ + Seq::<char>::empty());
    }
    acc
}

/// Whether a content block is a text block with a text payload.
pub open spec fn is_text_part(b: ContentBlock) -> bool {
    b.block_type@ == "text"@ && b.text is Some
}

/// The text payloads of the text blocks of `bs`, joined by newlines.
/// `started` records whether a part has been emitted already.
pub open spec fn joined_from(bs: Seq<ContentBlock>, started: bool) -> Seq<char>
    decreases bs.len(),
{
    if bs.len() == 0 {
        Seq::<char>::empty()
    } else if is_text_part(bs[0]) {
        (if started {
            seq!['\n']
        } else {
            Seq::<char>::empty()
        }) + bs[0].text.unwrap()@ + joined_from(bs.skip(1), true)
    } else {
        joined_from(bs.skip(1), started)
    }
}

/// The raw text of a message content: a plain string as it stands, or
/// the newline-joined text blocks of structured content.
pub open spec fn raw_text(c: RawContent) -> Seq<char> {
    match c {
        RawContent::Text(s) => s@,
        RawContent::Blocks(bs) => joined_from(bs@, false),
        RawContent::Other => Seq::<char>::empty(),
    }
}

/// Extracts the raw text of a content value, newlines preserved.
pub fn extract_raw_text(content: &RawContent) -> (r: String)
    ensures
        r@ == raw_text(*content),
{
    match content {
        RawContent::Text(s) => s.clone(),
        RawContent::Blocks(bs) => {
            let n: usize = bs.len();
            let mut acc = String::new();
            let mut started: bool = false;
            let mut i: usize = 0;
            proof {
                assert(bs@.skip(0) =~= bs@);
            }
            while i < n
                invariant
                    n == bs@.len(),
                    0 <= i <= n,
                    acc@ + joined_from(bs@.skip(i as int), started) == joined_from(bs@, false),
                decreases n - i,
            {
                proof {
                    assert(bs@.skip(i as int)[0] == bs@[i as int]);
                    assert(bs@.skip(i as int).skip(1) =~= bs@.skip(i as int + 1));
                }
                let b = &bs[i];
                if str_eq(b.block_type.as_str(), "text") {
                    match &b.text {
                        Some(t) => {
                            if started {
                                crate::text::push_char(&mut acc, '\n');
                            }
                            acc.append(t.as_str());
                            started = true;
                        },
                        None => {},
                    }
                }
                i = i + 1;
            }
            proof {
                assert(bs@.skip(n as int) =~= Seq::<ContentBlock>::empty());
                assert(acc@ =~= acc@ + Seq::<char>::empty());
            }
            acc
        },
        RawContent::Other => String::new(),
    }
}

/// The squashed text of the first text block of `bs`.
pub open spec fn first_text(bs: Seq<ContentBlock>) -> Seq<char>
    decreases bs.len(),
{
    if bs.len() == 0 {
        Seq::<char>::empty()
    } else if is_text_part(bs[0]) {
        squash_ws(bs[0].text.unwrap()@)
    } else {
        first_text(bs.skip(1))
    }
}

/// The display text of a content value: its text squashed to single
/// spaces; for structured content, only the first text block counts.
pub open spec fn display_text(c: RawContent) -> Seq<char> {
    match c {
        RawContent::Text(s) => squash_ws(s@),
        RawContent::Blocks(bs) => first_text(bs@),
        RawContent::Other => Seq::<char>::empty(),
    }
}

/// Extracts the squashed text of the first text block of `bs`.
fn first_text_of(bs: &Vec<ContentBlock>) -> (r: String)
    ensures
        r@ == first_text(bs@),
{
    let n: usize = bs.len();
    let mut i: usize = 0;
    proof {
        assert(bs@.skip(0) =~= bs@);
    }
    while i < n
        invariant
            n == bs@.len(),
            0 <= i <= n,
            first_text(bs@.skip(i as int)) == first_text(bs@),
        decreases n - i,
    {
        proof {
            assert(bs@.skip(i as int)[0] == bs@[i as int]);
            assert(bs@.skip(i as int).skip(1) =~= bs@.skip(i as int + 1));
        }
        let b = &bs[i];
        if str_eq(b.block_type.as_str(), "text") {
            match &b.text {
                Some(t) => {
                    proof {
                        assert(is_text_part(bs@[i as int]));
                        assert(first_text(bs@.skip(i as int)) == squash_ws(t@));
                    }
                    return squash_whitespace(t.as_str());
                },
                None => {},
            }
        }
        i = i + 1;
    }
    proof {
        assert(bs@.skip(n as int) =~= Seq::<ContentBlock>::empty());
    }
    String::new()
}

/// Extracts the single-line display text of a content value.
pub fn extract_text(content: &RawContent) -> (r: String)
    ensures
        r@ == display_text(*content),
{
    match content {
        RawContent::Text(s) => squash_whitespace(s.as_str()),
        RawContent::Blocks(bs) => first_text_of(bs),
        RawContent::Other => String::new(),
    }
}

/// The display cap on stored assistant text, in characters.
pub const CONTENT_CAP: usize = 5000;

/// `s` clipped to the display cap, a trailing ellipsis marking the cut.
pub open spec fn clip(s: Seq<char>) -> Seq<char> {
    if s.len() > 5000 {
        s.subrange(0, 5000) + seq!['.', '.', '.']
    } else {
        s
    }
}

/// Clips `s` to the display cap.
pub fn clip_text(s: String) -> (r: String)
    ensures
        r@ == clip(s@),
{
    let n: usize = s.as_str().unicode_len();
    if n > CONTENT_CAP {
        let head = s.as_str().substring_char(0, CONTENT_CAP);
        let mut acc = String::from_str(head);
        crate::text::push_char(&mut acc, '.');
        crate::text::push_char(&mut acc, '.');
        crate::text::push_char(&mut acc, '.');
        proof {
            assert(acc@ =~= s@.subrange(0, 5000) + seq!['.', '.', '.']);
        }
        acc
    } else {
        s
    }
}

/// Drops the skipped record kinds, keeping the rest in order.
fn filter_kept(events: Vec<RawEvent>) -> (r: Vec<RawEvent>)
    ensures
        r@ == kept_events(events@),
{
    let ghost all: Seq<RawEvent> = events@;
    let mut rest = events;
    let mut kept: Vec<RawEvent> = Vec::new();
    proof {
        assert(kept@ + kept_events(rest@) =~= kept_events(all));
    }
    while rest.len() > 0
        invariant
            kept@ + kept_events(rest@) == kept_events(all),
        decreases rest@.len(),
    {
        let ghost prev: Seq<RawEvent> = rest@;
        let e = rest.remove(0);
        proof {
            assert(prev[0] == e);
            assert(prev.skip(1) =~= rest@);
        }
        let skip = str_eq(e.event_type.as_str(), "progress") || str_eq(
            e.event_type.as_str(),
            "queue-operation",
        ) || str_eq(e.event_type.as_str(), "file-history-snapshot");
        if !skip {
            proof {
                assert(kept_events(prev) =~= seq![e] + kept_events(rest@));
            }
            kept.push(e);
            proof {
                assert(kept@ + kept_events(rest@) =~= kept_events(all));
            }
        } else {
            proof {
                assert(kept_events(prev) =~= kept_events(rest@));
            }
        }
    }
    proof {
        assert(kept_events(rest@) =~= Seq::<RawEvent>::empty());
        assert(kept@ =~= kept@ + kept_events(rest@));
    }
    kept
}

/// Scans every kept event for the header fields: working directory,
/// first and last timestamps, and total turn duration.
fn scan_header(kept: &Vec<RawEvent>) -> (r: (String, String, String, i64))
    ensures
        r.0@ == cwd_acc(Seq::<char>::empty(), kept@),
        r.1@ == started_acc(Seq::<char>::empty(), kept@),
        r.2@ == last_acc(Seq::<char>::empty(), kept@),
        r.3 == duration_acc(0, kept@),
{
    let n: usize = kept.len();
    let mut cwd = String::new();
    let mut started = String::new();
    let mut last = String::new();
    let mut duration: i64 = 0;
    let mut i: usize = 0;
    proof {
        assert(kept@.skip(0) =~= kept@);
    }
    while i < n
        invariant
            n == kept@.len(),
            0 <= i <= n,
            cwd_acc(cwd@, kept@.skip(i as int)) == cwd_acc(Seq::<char>::empty(), kept@),
            started_acc(started@, kept@.skip(i as int)) == started_acc(Seq::<char>::empty(), kept@),
            last_acc(last@, kept@.skip(i as int)) == last_acc(Seq::<char>::empty(), kept@),
            duration_acc(duration, kept@.skip(i as int)) == duration_acc(0, kept@),
        decreases n - i,
    {
        proof {
            assert(kept@.skip(i as int)[0] == kept@[i as int]);
            assert(kept@.skip(i as int).skip(1) =~= kept@.skip(i as int + 1));
        }
        let e = &kept[i];
        if cwd.as_str().is_empty() {
            match &e.cwd {
                Some(c) => {
                    cwd = c.clone();
                },
                None => {},
            }
        }
        let ts_empty: bool = match &e.timestamp {
            Some(t) => t.as_str().is_empty(),
            None => true,
        };
        if !ts_empty {
            match &e.timestamp {
                Some(t) => {
                    if started.as_str().is_empty() {
                        started = t.clone();
                    }
                    last = t.clone();
                },
                None => {},
            }
        }
        if str_eq(e.event_type.as_str(), "system") {
            let is_td: bool = match &e.subtype {
                Some(s) => str_eq(s.as_str(), "turn_duration"),
                None => false,
            };
            if is_td {
                match &e.duration_ms {
                    Some(d) => {
                        duration = crate::sat_add64i(duration, *d);
                    },
                    None => {},
                }
            }
        }
        proof {
            assert(is_turn_duration(kept@[i as int]) == (kept@[i as int].event_type@ == "system"@
                && match kept@[i as int].subtype {
                Some(s) => s@ == "turn_duration"@,
                None => false,
            }));
        }
        i = i + 1;
    }
    proof {
        assert(kept@.skip(n as int) =~= Seq::<RawEvent>::empty());
    }
    (cwd, started, last, duration)
}

/// The message id of an event, by reference.
fn event_msg_id<'a>(e: &'a RawEvent) -> (r: Option<&'a String>)
    ensures
        match (r, msg_id(*e)) {
            (Some(a), Some(b)) => *a == b,
            (None, None) => true,
            _ => false,
        },
{
    match &e.message {
        Some(m) => match &m.id {
            Some(i) => Some(i),
            None => None,
        },
        None => None,
    }
}

/// Finds the first tagged event whose message id is `id`.
fn find_assistant(v: &Vec<TaggedEvent>, id: &String) -> (r: usize)
    ensures
        r as int == id_index(v@, id@),
        r <= v@.len(),
{
    let n: usize = v.len();
    let mut j: usize = 0;
    while j < n
        invariant
            n == v@.len(),
            0 <= j <= n,
            forall|k: int| 0 <= k < j ==> !has_msg_id(v@[k], id@),
        decreases n - j,
    {
        let hit: bool = match event_msg_id(&v[j].event) {
            Some(s) => str_eq(s.as_str(), id.as_str()),
            None => false,
        };
        if hit {
            proof {
                lemma_id_index_at(v@, id@, j as int);
            }
            return j;
        }
        j = j + 1;
    }
    proof {
        lemma_id_index_at(v@, id@, n as int);
    }
    n
}

proof fn lemma_id_index_at(s: Seq<TaggedEvent>, id: Seq<char>, j: int)
    requires
        0 <= j <= s.len(),
        forall|k: int| 0 <= k < j ==> !has_msg_id(s[k], id),
        j < s.len() ==> has_msg_id(s[j], id),
    ensures
        id_index(s, id) == j,
    decreases j,
{
    if j > 0 {
        lemma_id_index_at(s.skip(1), id, j - 1);
    }
}

/// Partitions the kept events into user records in arrival order
/// followed by id-deduplicated assistant records.
fn partition_events(kept: Vec<RawEvent>) -> (r: Vec<TaggedEvent>)
    ensures
        r@ == user_events(kept@) + dedup_events(
            Seq::<TaggedEvent>::empty(),
            assistant_events(kept@),
        ),
{
    let ghost all: Seq<RawEvent> = kept@;
    let mut rest = kept;
    let mut users: Vec<TaggedEvent> = Vec::new();
    let mut assists: Vec<TaggedEvent> = Vec::new();
    proof {
        assert(users@ + user_events(rest@) =~= user_events(all));
    }
    while rest.len() > 0
        invariant
            users@ + user_events(rest@) == user_events(all),
            dedup_events(assists@, assistant_events(rest@)) == dedup_events(
                Seq::<TaggedEvent>::empty(),
                assistant_events(all),
            ),
        decreases rest@.len(),
    {
        let ghost prev: Seq<RawEvent> = rest@;
        let e = rest.remove(0);
        proof {
            assert(prev[0] == e);
            assert(prev.skip(1) =~= rest@);
        }
        let is_u: bool = str_eq(e.event_type.as_str(), "user") && match &e.message {
            Some(m) => str_eq(m.role.as_str(), "user"),
            None => false,
        };
        let is_a: bool = !is_u && str_eq(e.event_type.as_str(), "assistant") && match &e.message {
            Some(m) => str_eq(m.role.as_str(), "assistant"),
            None => false,
        };
        proof {
            reveal_strlit("user");
            reveal_strlit("assistant");
            assert("user"@.len() == 4);
            assert("assistant"@.len() == 9);
            assert(is_u == is_user_event(prev[0]));
            assert(is_a == is_assistant_event(prev[0]));
        }
        if is_u {
            proof {
                assert(user_events(prev) =~= seq![
                    TaggedEvent { is_user: true, event: prev[0] },
                ] + user_events(rest@));
                assert(assistant_events(prev) =~= assistant_events(rest@));
            }
            users.push(TaggedEvent { is_user: true, event: e });
            proof {
                assert(users@ + user_events(rest@) =~= user_events(all));
            }
        } else if is_a {
            let t = TaggedEvent { is_user: false, event: e };
            let ghost abefore: Seq<TaggedEvent> = assists@;
            proof {
                assert(user_events(prev) =~= user_events(rest@));
                assert(assistant_events(prev) =~= seq![t] + assistant_events(rest@));
                assert((seq![t] + assistant_events(rest@))[0] == t);
                assert((seq![t] + assistant_events(rest@)).skip(1) =~= assistant_events(rest@));
            }
            let has_id: bool;
            let mut idx: usize = 0;
            match event_msg_id(&t.event) {
                Some(id) => {
                    has_id = true;
                    idx = find_assistant(&assists, id);
                },
                None => {
                    has_id = false;
                },
            }
            if has_id && idx < assists.len() {
                let _replaced = assists.remove(idx);
                assists.insert(idx, t);
                proof {
                    assert(assists@ =~= dedup_step(abefore, t));
                }
            } else {
                assists.push(t);
                proof {
                    assert(assists@ =~= dedup_step(abefore, t));
                }
            }
        } else {
            proof {
                assert(user_events(prev) =~= user_events(rest@));
                assert(assistant_events(prev) =~= assistant_events(rest@));
            }
        }
    }
    proof {
        assert(user_events(rest@) =~= Seq::<TaggedEvent>::empty());
        assert(assistant_events(rest@) =~= Seq::<TaggedEvent>::empty());
        assert(users@ =~= users@ + user_events(rest@));
    }
    let mut merged = users;
    merged.append(&mut assists);
    merged
}

/// Compares two optional timestamps as `ev_ts` views.
fn ts_le(a: &RawEvent, b: &RawEvent) -> (r: bool)
    ensures
        r == lex_le(ev_ts(*a), ev_ts(*b)),
{
    let sa: &str = match &a.timestamp {
        Some(t) => t.as_str(),
        None => "",
    };
    let sb: &str = match &b.timestamp {
        Some(t) => t.as_str(),
        None => "",
    };
    proof {
        reveal_strlit("");
        assert(""@ =~= Seq::<char>::empty());
    }
    str_le(sa, sb)
}

/// Inserts `t` into the timestamp-sorted `out`.
fn insert_sorted(out: &mut Vec<TaggedEvent>, t: TaggedEvent)
    ensures
        final(out)@ == insert_by_ts(old(out)@, t),
{
    let mut j: usize = out.len();
    while j > 0 && !ts_le(&out[j - 1].event, &t.event)
        invariant
            0 <= j <= out@.len(),
            forall|k: int| j <= k < out@.len() ==> !lex_le(ev_ts(out@[k].event), ev_ts(t.event)),
            out@ == old(out)@,
        decreases j,
    {
        j = j - 1;
    }
    proof {
        lemma_insert_at(out@, t, j as int);
    }
    out.insert(j, t);
}

proof fn lemma_insert_at(s: Seq<TaggedEvent>, t: TaggedEvent, j: int)
    requires
        0 <= j <= s.len(),
        forall|k: int| j <= k < s.len() ==> !lex_le(ev_ts(s[k].event), ev_ts(t.event)),
        j > 0 ==> lex_le(ev_ts(s[j - 1].event), ev_ts(t.event)),
    ensures
        insert_by_ts(s, t) == s.subrange(0, j).push(t) + s.subrange(j, s.len() as int),
    decreases s.len(),
{
    if s.len() == 0 {
        assert(insert_by_ts(s, t) =~= s.subrange(0, j).push(t) + s.subrange(j, s.len() as int));
    } else if j == s.len() {
        assert(insert_by_ts(s, t) == s.push(t));
        assert(s.subrange(0, j) =~= s);
        assert(s.subrange(j, s.len() as int) =~= Seq::<TaggedEvent>::empty());
        assert(s.push(t) =~= s.subrange(0, j).push(t) + s.subrange(j, s.len() as int));
    } else {
        let d = s.drop_last();
        assert(!lex_le(ev_ts(s.last().event), ev_ts(t.event)));
        assert(forall|k: int| j <= k < d.len() ==> d[k] == s[k]);
        assert(j > 0 ==> d[j - 1] == s[j - 1]);
        lemma_insert_at(d, t, j);
        assert(insert_by_ts(s, t) == insert_by_ts(d, t).push(s.last()));
        assert(d.subrange(0, j) =~= s.subrange(0, j));
        assert((d.subrange(0, j).push(t) + d.subrange(j, d.len() as int)).push(s.last()) =~= s.subrange(
            0,
            j,
        ).push(t) + s.subrange(j, s.len() as int));
    }
}

// --- Accounting folds. Each walks the event sequence left to right
// --- carrying its accumulator, exactly as the builder's loops do.

/// The record kinds the normalizer skips entirely.
pub open spec fn is_kept(e: RawEvent) -> bool {
    e.event_type@ != "progress"@ && e.event_type@ != "queue-operation"@ && e.event_type@
        != "file-history-snapshot"@
}

/// The events of `evs` that are not of a skipped kind, in order.
pub open spec fn kept_events(evs: Seq<RawEvent>) -> Seq<RawEvent>
    decreases evs.len(),
{
    if evs.len() == 0 {
        Seq::<RawEvent>::empty()
    } else {
        (if is_kept(evs[0]) {
            seq![evs[0]]
        } else {
            Seq::<RawEvent>::empty()
        }) + kept_events(evs.skip(1))
    }
}

/// The first non-empty working directory of `evs`, folded into `acc`.
pub open spec fn cwd_acc(acc: Seq<char>, evs: Seq<RawEvent>) -> Seq<char>
    decreases evs.len(),
{
    if evs.len() == 0 {
        acc
    } else {
        let a2 = if acc.len() == 0 {
            match evs[0].cwd {
                Some(c) => c@,
                None => acc,
            }
        } else {
            acc
        };
        cwd_acc(a2, evs.skip(1))
    }
}

/// The first non-empty timestamp of `evs`, folded into `acc`.
pub open spec fn started_acc(acc: Seq<char>, evs: Seq<RawEvent>) -> Seq<char>
    decreases evs.len(),
{
    if evs.len() == 0 {
        acc
    } else {
        let ts = ev_ts(evs[0]);
        let a2 = if acc.len() == 0 && ts.len() > 0 {
            ts
        } else {
            acc
        };
        started_acc(a2, evs.skip(1))
    }
}

/// The last non-empty timestamp of `evs`, folded into `acc`.
pub open spec fn last_acc(acc: Seq<char>, evs: Seq<RawEvent>) -> Seq<char>
    decreases evs.len(),
{
    if evs.len() == 0 {
        acc
    } else {
        let ts = ev_ts(evs[0]);
        let a2 = if ts.len() > 0 {
            ts
        } else {
            acc
        };
        last_acc(a2, evs.skip(1))
    }
}

/// Whether an event is a system record reporting a turn duration.
pub open spec fn is_turn_duration(e: RawEvent) -> bool {
    e.event_type@ == "system"@ && match e.subtype {
        Some(s) => s@ == "turn_duration"@,
        None => false,
    }
}

/// Total reported turn duration of `evs`, folded into `acc`,
/// saturating.
pub open spec fn duration_acc(acc: i64, evs: Seq<RawEvent>) -> i64
    decreases evs.len(),
{
    if evs.len() == 0 {
        acc
    } else {
        let a2 = if is_turn_duration(evs[0]) {
            match evs[0].duration_ms {
                Some(d) => crate::sat_add_i64(acc, d),
                None => acc,
            }
        } else {
            acc
        };
        duration_acc(a2, evs.skip(1))
    }
}

/// The content of a tagged event's message.
pub open spec fn ev_content(t: TaggedEvent) -> RawContent {
    match t.event.message {
        Some(m) => m.content,
        None => RawContent::Other,
    }
}

/// The token usage a tagged assistant event reports.
pub open spec fn ev_usage(t: TaggedEvent) -> Option<TokenUsage> {
    match t.event.message {
        Some(m) => m.usage,
        None => None,
    }
}

/// One token-accounting step: an assistant event's reported counts are
/// added, saturating, to the totals.
pub open spec fn tokens_step(acc: crate::models::TokenTotals, t: TaggedEvent) -> crate::models::TokenTotals {
    if !t.is_user {
        match ev_usage(t) {
            Some(u) => crate::models::TokenTotals {
                input: crate::sat_add(acc.input, crate::opt0(u.input_tokens)),
                output: crate::sat_add(acc.output, crate::opt0(u.output_tokens)),
                cache_read: crate::sat_add(acc.cache_read, crate::opt0(u.cache_read_input_tokens)),
                cache_creation: crate::sat_add(
                    acc.cache_creation,
                    crate::opt0(u.cache_creation_input_tokens),
                ),
            },
            None => acc,
        }
    } else {
        acc
    }
}

/// Token totals of the ordered events, folded into `acc`.
pub open spec fn tokens_acc(acc: crate::models::TokenTotals, s: Seq<TaggedEvent>) -> crate::models::TokenTotals
    decreases s.len(),
{
    if s.len() == 0 {
        acc
    } else {
        tokens_acc(tokens_step(acc, s[0]), s.skip(1))
    }
}

/// The first non-empty model name an assistant event reports, folded
/// into `acc`.
pub open spec fn model_acc(acc: Seq<char>, s: Seq<TaggedEvent>) -> Seq<char>
    decreases s.len(),
{
    if s.len() == 0 {
        acc
    } else {
        let a2 = if acc.len() == 0 && !s[0].is_user {
            match s[0].event.message {
                Some(m) => match m.model {
                    Some(mm) => mm@,
                    None => acc,
                },
                None => acc,
            }
        } else {
            acc
        };
        model_acc(a2, s.skip(1))
    }
}

/// The first non-empty user display text, folded into `acc`: the
/// session's first prompt.
pub open spec fn prompt_acc(acc: Seq<char>, s: Seq<TaggedEvent>) -> Seq<char>
    decreases s.len(),
{
    if s.len() == 0 {
        acc
    } else {
        let a2 = if acc.len() == 0 && s[0].is_user {
            display_text(ev_content(s[0]))
        } else {
            acc
        };
        prompt_acc(a2, s.skip(1))
    }
}

/// A user event's contribution text: its raw text, markup stripped,
/// trimmed.
pub open spec fn human_text(t: TaggedEvent) -> Seq<char> {
    crate::text::trim_spec(strip_tags(raw_text(ev_content(t))))
}

/// Human-contributed line count, folded into `acc`, saturating.
pub open spec fn human_lines_acc(acc: u64, s: Seq<TaggedEvent>) -> u64
    decreases s.len(),
{
    if s.len() == 0 {
        acc
    } else {
        let a2 = if s[0].is_user {
            crate::sat_add(acc, crate::text::line_count(human_text(s[0])) as u64)
        } else {
            acc
        };
        human_lines_acc(a2, s.skip(1))
    }
}

/// Human-contributed word count, folded into `acc`, saturating.
pub open spec fn human_words_acc(acc: u64, s: Seq<TaggedEvent>) -> u64
    decreases s.len(),
{
    if s.len() == 0 {
        acc
    } else {
        let a2 = if s[0].is_user {
            crate::sat_add(acc, crate::text::word_count(human_text(s[0])) as u64)
        } else {
            acc
        };
        human_words_acc(a2, s.skip(1))
    }
}

/// Human-contributed character count, folded into `acc`, saturating.
pub open spec fn human_chars_acc(acc: u64, s: Seq<TaggedEvent>) -> u64
    decreases s.len(),
{
    if s.len() == 0 {
        acc
    } else {
        let a2 = if s[0].is_user {
            crate::sat_add(acc, human_text(s[0]).len() as u64)
        } else {
            acc
        };
        human_chars_acc(a2, s.skip(1))
    }
}

/// The structured blocks of a tagged assistant event, empty otherwise.
pub open spec fn blocks_of(t: TaggedEvent) -> Seq<ContentBlock> {
    if !t.is_user {
        match ev_content(t) {
            RawContent::Blocks(bs) => bs@,
            _ => Seq::<ContentBlock>::empty(),
        }
    } else {
        Seq::<ContentBlock>::empty()
    }
}

/// Whether a block is a named tool invocation.
pub open spec fn is_tool_use(b: ContentBlock) -> bool {
    b.block_type@ == "tool_use"@ && b.name is Some
}

/// First index in `acc` counting tool `name`; `acc.len()` if none.
pub open spec fn tool_idx(acc: Seq<crate::models::ToolCount>, name: Seq<char>) -> int
    decreases acc.len(),
{
    if acc.len() == 0 {
        0
    } else if acc[0].name@ == name {
        0
    } else {
        1 + tool_idx(acc.skip(1), name)
    }
}

/// Counts one use of tool `name`: an existing entry is incremented,
/// saturating; a new name is appended.
pub open spec fn bump_tool_spec(acc: Seq<crate::models::ToolCount>, name: String) -> Seq<crate::models::ToolCount> {
    let i = tool_idx(acc, name@);
    if i < acc.len() {
        acc.update(
            i,
            crate::models::ToolCount { name: acc[i].name, count: crate::sat_add(acc[i].count, 1) },
        )
    } else {
        acc.push(crate::models::ToolCount { name: name, count: 1 })
    }
}

/// Tool-usage counts over one event's blocks, folded into `acc`.
pub open spec fn tools_blocks(acc: Seq<crate::models::ToolCount>, bs: Seq<ContentBlock>) -> Seq<crate::models::ToolCount>
    decreases bs.len(),
{
    if bs.len() == 0 {
        acc
    } else {
        let a2 = if is_tool_use(bs[0]) {
            bump_tool_spec(acc, bs[0].name.unwrap())
        } else {
            acc
        };
        tools_blocks(a2, bs.skip(1))
    }
}

/// Tool-usage counts over the ordered events, folded into `acc`.
pub open spec fn tools_acc(acc: Seq<crate::models::ToolCount>, s: Seq<TaggedEvent>) -> Seq<crate::models::ToolCount>
    decreases s.len(),
{
    if s.len() == 0 {
        acc
    } else {
        tools_acc(tools_blocks(acc, blocks_of(s[0])), s.skip(1))
    }
}

/// Whether a block is a tool invocation named `name`.
pub open spec fn is_tool_named(b: ContentBlock, name: Seq<char>) -> bool {
    is_tool_use(b) && b.name.unwrap()@ == name
}

/// Lines a `Write` invocation adds: its content's line count.
pub open spec fn write_lines(b: ContentBlock) -> u64 {
    if is_tool_named(b, "Write"@) {
        match b.input {
            Some(inp) => match inp.content {
                Some(c) => crate::text::line_count(c@) as u64,
                None => 0,
            },
            None => 0,
        }
    } else {
        0
    }
}

/// Lines an `Edit` invocation removes: its old string's line count.
pub open spec fn edit_old_lines(b: ContentBlock) -> u64 {
    if is_tool_named(b, "Edit"@) {
        match b.input {
            Some(inp) => match inp.old_string {
                Some(s) => crate::text::line_count(s@) as u64,
                None => 0,
            },
            None => 0,
        }
    } else {
        0
    }
}

/// Lines an `Edit` invocation adds: its new string's line count.
pub open spec fn edit_new_lines(b: ContentBlock) -> u64 {
    if is_tool_named(b, "Edit"@) {
        match b.input {
            Some(inp) => match inp.new_string {
                Some(s) => crate::text::line_count(s@) as u64,
                None => 0,
            },
            None => 0,
        }
    } else {
        0
    }
}

/// Lines added over one event's blocks, folded into `acc`, saturating.
pub open spec fn lines_added_blocks(acc: u64, bs: Seq<ContentBlock>) -> u64
    decreases bs.len(),
{
    if bs.len() == 0 {
        acc
    } else {
        lines_added_blocks(
            crate::sat_add(crate::sat_add(acc, write_lines(bs[0])), edit_new_lines(bs[0])),
            bs.skip(1),
        )
    }
}

/// Lines added over the ordered events, folded into `acc`.
pub open spec fn lines_added_acc(acc: u64, s: Seq<TaggedEvent>) -> u64
    decreases s.len(),
{
    if s.len() == 0 {
        acc
    } else {
        lines_added_acc(lines_added_blocks(acc, blocks_of(s[0])), s.skip(1))
    }
}

/// Lines removed over one event's blocks, folded into `acc`,
/// saturating.
pub open spec fn lines_removed_blocks(acc: u64, bs: Seq<ContentBlock>) -> u64
    decreases bs.len(),
{
    if bs.len() == 0 {
        acc
    } else {
        lines_removed_blocks(crate::sat_add(acc, edit_old_lines(bs[0])), bs.skip(1))
    }
}

/// Lines removed over the ordered events, folded into `acc`.
pub open spec fn lines_removed_acc(acc: u64, s: Seq<TaggedEvent>) -> u64
    decreases s.len(),
{
    if s.len() == 0 {
        acc
    } else {
        lines_removed_acc(lines_removed_blocks(acc, blocks_of(s[0])), s.skip(1))
    }
}

/// First index in `acc` tallying `path`; `acc.len()` if none.
pub open spec fn file_idx(acc: Seq<crate::models::FileEntry>, path: Seq<char>) -> int
    decreases acc.len(),
{
    if acc.len() == 0 {
        0
    } else if acc[0].path@ == path {
        0
    } else {
        1 + file_idx(acc.skip(1), path)
    }
}

/// Adds `add`/`rem` lines to `path`'s tally, saturating; a new path is
/// appended.
pub open spec fn bump_file_spec(
    acc: Seq<crate::models::FileEntry>,
    path: String,
    add: u64,
    rem: u64,
) -> Seq<crate::models::FileEntry> {
    let i = file_idx(acc, path@);
    if i < acc.len() {
        acc.update(
            i,
            crate::models::FileEntry {
                path: acc[i].path,
                contribution: crate::models::FileContribution {
                    added: crate::sat_add(acc[i].contribution.added, add),
                    removed: crate::sat_add(acc[i].contribution.removed, rem),
                },
            },
        )
    } else {
        acc.push(
            crate::models::FileEntry {
                path: path,
                contribution: crate::models::FileContribution { added: add, removed: rem },
            },
        )
    }
}

/// One file-contribution step: a `Write` with a content and a path
/// tallies its added lines; an `Edit` with an input and a path tallies
/// its new and old line counts.
pub open spec fn files_step(acc: Seq<crate::models::FileEntry>, b: ContentBlock) -> Seq<crate::models::FileEntry> {
    if is_tool_named(b, "Write"@) {
        match b.input {
            Some(inp) => match (inp.content, inp.file_path) {
                (Some(c), Some(fp)) => bump_file_spec(acc, fp, crate::text::line_count(c@) as u64, 0),
                _ => acc,
            },
            None => acc,
        }
    } else if is_tool_named(b, "Edit"@) {
        match b.input {
            Some(inp) => match inp.file_path {
                Some(fp) => bump_file_spec(acc, fp, edit_new_lines(b), edit_old_lines(b)),
                None => acc,
            },
            None => acc,
        }
    } else {
        acc
    }
}

/// File contributions over one event's blocks, folded into `acc`.
pub open spec fn files_blocks(acc: Seq<crate::models::FileEntry>, bs: Seq<ContentBlock>) -> Seq<crate::models::FileEntry>
    decreases bs.len(),
{
    if bs.len() == 0 {
        acc
    } else {
        files_blocks(files_step(acc, bs[0]), bs.skip(1))
    }
}

/// File contributions over the ordered events, folded into `acc`.
pub open spec fn files_acc(acc: Seq<crate::models::FileEntry>, s: Seq<TaggedEvent>) -> Seq<crate::models::FileEntry>
    decreases s.len(),
{
    if s.len() == 0 {
        acc
    } else {
        files_acc(files_blocks(acc, blocks_of(s[0])), s.skip(1))
    }
}

/// The uuid view of a tagged event, absent rendered empty.
pub open spec fn ev_uuid(t: TaggedEvent) -> Seq<char> {
    match t.event.uuid {
        Some(u) => u@,
        None => Seq::<char>::empty(),
    }
}

/// How one stored message must relate to the ordered event it came
/// from: role, timestamp, uuid and usage are carried over, and the
/// content is the event's text, markup stripped, assistant text clipped
/// to the display cap, trimmed.
pub open spec fn msg_matches(m: crate::models::ConversationMessage, t: TaggedEvent) -> bool {
    &&& m.timestamp@ == ev_ts(t.event)
    &&& m.uuid@ == ev_uuid(t)
    &&& (if t.is_user {
        &&& m.role@ == "user"@
        &&& m.usage is None
        &&& m.content@ == crate::text::trim_spec(strip_tags(raw_text(ev_content(t))))
    } else {
        &&& m.role@ == "assistant"@
        &&& m.usage == ev_usage(t)
        &&& m.content@ == crate::text::trim_spec(clip(strip_tags(raw_text(ev_content(t)))))
    })
}

/// How a built session must relate to the raw events it was built
/// from: the skipped kinds are dropped, header fields fold over every
/// kept event, and the messages and accounting fold over the canonical
/// message order.
pub open spec fn session_matches(
    r: crate::models::ParsedSession,
    evs: Seq<RawEvent>,
    sid: Seq<char>,
    pid: Seq<char>,
) -> bool {
    let kept = kept_events(evs);
    let ord = ordered_events(kept);
    &&& r.session_id@ == sid
    &&& r.project_id@ == pid
    &&& r.cwd@ == cwd_acc(Seq::<char>::empty(), kept)
    &&& r.started_at@ == started_acc(Seq::<char>::empty(), kept)
    &&& r.last_active@ == last_acc(Seq::<char>::empty(), kept)
    &&& r.duration_ms == duration_acc(0, kept)
    &&& r.messages@.len() == ord.len()
    &&& (forall|i: int| 0 <= i < ord.len() ==> msg_matches(#[trigger] r.messages@[i], ord[i]))
    &&& r.total_tokens == tokens_acc(
        crate::models::TokenTotals { input: 0, output: 0, cache_read: 0, cache_creation: 0 },
        ord,
    )
    &&& r.model@ == model_acc(Seq::<char>::empty(), ord)
    &&& r.first_prompt@ == prompt_acc(Seq::<char>::empty(), ord)
    &&& r.human_lines == human_lines_acc(0, ord)
    &&& r.human_words == human_words_acc(0, ord)
    &&& r.human_chars == human_chars_acc(0, ord)
    &&& r.tool_usage@ == tools_acc(Seq::<crate::models::ToolCount>::empty(), ord)
    &&& r.lines_added == lines_added_acc(0, ord)
    &&& r.lines_removed == lines_removed_acc(0, ord)
    &&& r.file_contributions@ == files_acc(Seq::<crate::models::FileEntry>::empty(), ord)
    &&& r.source == crate::models::DataSource::Claude
}

proof fn lemma_tool_idx(s: Seq<crate::models::ToolCount>, name: Seq<char>, j: int)
    requires
        0 <= j <= s.len(),
        forall|k: int| 0 <= k < j ==> s[k].name@ != name,
        j < s.len() ==> s[j].name@ == name,
    ensures
        tool_idx(s, name) == j,
    decreases j,
{
    if j > 0 {
        lemma_tool_idx(s.skip(1), name, j - 1);
    }
}

/// Counts one use of tool `name` in the table.
pub fn bump_tool(v: &mut Vec<crate::models::ToolCount>, name: String)
    ensures
        final(v)@ == bump_tool_spec(old(v)@, name),
{
    let n: usize = v.len();
    let mut j: usize = 0;
    while j < n
        invariant
            n == v@.len(),
            0 <= j <= n,
            v@ == old(v)@,
            forall|k: int| 0 <= k < j ==> v@[k].name@ != name@,
        decreases n - j,
    {
        if str_eq(v[j].name.as_str(), name.as_str()) {
            proof {
                lemma_tool_idx(v@, name@, j as int);
            }
            let e = v.remove(j);
            let e2 = crate::models::ToolCount { name: e.name, count: crate::sat_add64(e.count, 1) };
            v.insert(j, e2);
            proof {
                assert(v@ =~= bump_tool_spec(old(v)@, name));
            }
            return;
        }
        j = j + 1;
    }
    proof {
        lemma_tool_idx(v@, name@, n as int);
    }
    v.push(crate::models::ToolCount { name: name, count: 1 });
}

/// Counts `by` uses of tool `name`: an existing entry grows,
/// saturating; a new name is appended with that count.
pub open spec fn bump_tool_by_spec(acc: Seq<crate::models::ToolCount>, name: String, by: u64) -> Seq<crate::models::ToolCount> {
    let i = tool_idx(acc, name@);
    if i < acc.len() {
        acc.update(
            i,
            crate::models::ToolCount { name: acc[i].name, count: crate::sat_add(acc[i].count, by) },
        )
    } else {
        acc.push(crate::models::ToolCount { name: name, count: by })
    }
}

/// Counts `by` uses of tool `name` in the table.
pub fn bump_tool_by(v: &mut Vec<crate::models::ToolCount>, name: String, by: u64)
    ensures
        final(v)@ == bump_tool_by_spec(old(v)@, name, by),
{
    let n: usize = v.len();
    let mut j: usize = 0;
    while j < n
        invariant
            n == v@.len(),
            0 <= j <= n,
            v@ == old(v)@,
            forall|k: int| 0 <= k < j ==> v@[k].name@ != name@,
        decreases n - j,
    {
        if str_eq(v[j].name.as_str(), name.as_str()) {
            proof {
                lemma_tool_idx(v@, name@, j as int);
            }
            let e = v.remove(j);
            let e2 = crate::models::ToolCount { name: e.name, count: crate::sat_add64(e.count, by) };
            v.insert(j, e2);
            proof {
                assert(v@ =~= bump_tool_by_spec(old(v)@, name, by));
            }
            return;
        }
        j = j + 1;
    }
    proof {
        lemma_tool_idx(v@, name@, n as int);
    }
    v.push(crate::models::ToolCount { name: name, count: by });
}

proof fn lemma_file_idx(s: Seq<crate::models::FileEntry>, path: Seq<char>, j: int)
    requires
        0 <= j <= s.len(),
        forall|k: int| 0 <= k < j ==> s[k].path@ != path,
        j < s.len() ==> s[j].path@ == path,
    ensures
        file_idx(s, path) == j,
    decreases j,
{
    if j > 0 {
        lemma_file_idx(s.skip(1), path, j - 1);
    }
}

/// Tallies `add`/`rem` lines against `path` in the table.
pub fn bump_file(v: &mut Vec<crate::models::FileEntry>, path: String, add: u64, rem: u64)
    ensures
        final(v)@ == bump_file_spec(old(v)@, path, add, rem),
{
    let n: usize = v.len();
    let mut j: usize = 0;
    while j < n
        invariant
            n == v@.len(),
            0 <= j <= n,
            v@ == old(v)@,
            forall|k: int| 0 <= k < j ==> v@[k].path@ != path@,
        decreases n - j,
    {
        if str_eq(v[j].path.as_str(), path.as_str()) {
            proof {
                lemma_file_idx(v@, path@, j as int);
            }
            let e = v.remove(j);
            let e2 = crate::models::FileEntry {
                path: e.path,
                contribution: crate::models::FileContribution {
                    added: crate::sat_add64(e.contribution.added, add),
                    removed: crate::sat_add64(e.contribution.removed, rem),
                },
            };
            v.insert(j, e2);
            proof {
                assert(v@ =~= bump_file_spec(old(v)@, path, add, rem));
            }
            return;
        }
        j = j + 1;
    }
    proof {
        lemma_file_idx(v@, path@, n as int);
    }
    v.push(
        crate::models::FileEntry {
            path: path,
            contribution: crate::models::FileContribution { added: add, removed: rem },
        },
    );
}

/// Counts the tool invocations of one event's blocks into the table.
fn tools_from_blocks(v: &mut Vec<crate::models::ToolCount>, bs: &Vec<ContentBlock>)
    ensures
        final(v)@ == tools_blocks(old(v)@, bs@),
{
    let n: usize = bs.len();
    let mut i: usize = 0;
    proof {
        assert(bs@.skip(0) =~= bs@);
    }
    while i < n
        invariant
            n == bs@.len(),
            0 <= i <= n,
            tools_blocks(v@, bs@.skip(i as int)) == tools_blocks(old(v)@, bs@),
        decreases n - i,
    {
        proof {
            assert(bs@.skip(i as int)[0] == bs@[i as int]);
            assert(bs@.skip(i as int).skip(1) =~= bs@.skip(i as int + 1));
        }
        let b = &bs[i];
        if str_eq(b.block_type.as_str(), "tool_use") {
            match &b.name {
                Some(nm) => {
                    bump_tool(v, nm.clone());
                },
                None => {},
            }
        }
        i = i + 1;
    }
    proof {
        assert(bs@.skip(n as int) =~= Seq::<ContentBlock>::empty());
    }
}

/// Adds one event's blocks to the added/removed line counts.
fn lines_from_blocks(la0: u64, lr0: u64, bs: &Vec<ContentBlock>) -> (r: (u64, u64))
    ensures
        r.0 == lines_added_blocks(la0, bs@),
        r.1 == lines_removed_blocks(lr0, bs@),
{
    let n: usize = bs.len();
    let mut la: u64 = la0;
    let mut lr: u64 = lr0;
    let mut i: usize = 0;
    proof {
        assert(bs@.skip(0) =~= bs@);
    }
    while i < n
        invariant
            n == bs@.len(),
            0 <= i <= n,
            lines_added_blocks(la, bs@.skip(i as int)) == lines_added_blocks(la0, bs@),
            lines_removed_blocks(lr, bs@.skip(i as int)) == lines_removed_blocks(lr0, bs@),
        decreases n - i,
    {
        proof {
            assert(bs@.skip(i as int)[0] == bs@[i as int]);
            assert(bs@.skip(i as int).skip(1) =~= bs@.skip(i as int + 1));
        }
        let b = &bs[i];
        let mut wl: u64 = 0;
        let mut eo: u64 = 0;
        let mut en: u64 = 0;
        if str_eq(b.block_type.as_str(), "tool_use") {
            match &b.name {
                Some(nm) => {
                    if str_eq(nm.as_str(), "Write") {
                        match &b.input {
                            Some(inp) => match &inp.content {
                                Some(c) => {
                                    wl = crate::text::count_lines(c.as_str());
                                },
                                None => {},
                            },
                            None => {},
                        }
                    } else if str_eq(nm.as_str(), "Edit") {
                        match &b.input {
                            Some(inp) => {
                                match &inp.old_string {
                                    Some(s) => {
                                        eo = crate::text::count_lines(s.as_str());
                                    },
                                    None => {},
                                }
                                match &inp.new_string {
                                    Some(s) => {
                                        en = crate::text::count_lines(s.as_str());
                                    },
                                    None => {},
                                }
                            },
                            None => {},
                        }
                    }
                },
                None => {},
            }
        }
        proof {
            reveal_strlit("Write");
            reveal_strlit("Edit");
            assert("Write"@.len() == 5);
            assert("Edit"@.len() == 4);
            assert("Write"@ != "Edit"@);
            assert(wl == write_lines(bs@[i as int]));
            assert(eo == edit_old_lines(bs@[i as int]));
            assert(en == edit_new_lines(bs@[i as int]));
        }
        la = crate::sat_add64(crate::sat_add64(la, wl), en);
        lr = crate::sat_add64(lr, eo);
        i = i + 1;
    }
    proof {
        assert(bs@.skip(n as int) =~= Seq::<ContentBlock>::empty());
    }
    (la, lr)
}

/// Tallies one event's blocks into the file-contribution table.
fn files_from_blocks(v: &mut Vec<crate::models::FileEntry>, bs: &Vec<ContentBlock>)
    ensures
        final(v)@ == files_blocks(old(v)@, bs@),
{
    let n: usize = bs.len();
    let mut i: usize = 0;
    proof {
        assert(bs@.skip(0) =~= bs@);
    }
    while i < n
        invariant
            n == bs@.len(),
            0 <= i <= n,
            files_blocks(v@, bs@.skip(i as int)) == files_blocks(old(v)@, bs@),
        decreases n - i,
    {
        proof {
            reveal_strlit("Write");
            reveal_strlit("Edit");
            assert("Write"@.len() == 5);
            assert("Edit"@.len() == 4);
            assert("Write"@ != "Edit"@);
            assert(bs@.skip(i as int)[0] == bs@[i as int]);
            assert(bs@.skip(i as int).skip(1) =~= bs@.skip(i as int + 1));
        }
        let b = &bs[i];
        if str_eq(b.block_type.as_str(), "tool_use") {
            match &b.name {
                Some(nm) => {
                    if str_eq(nm.as_str(), "Write") {
                        match &b.input {
                            Some(inp) => match (&inp.content, &inp.file_path) {
                                (Some(c), Some(fp)) => {
                                    let wl = crate::text::count_lines(c.as_str());
                                    bump_file(v, fp.clone(), wl, 0);
                                },
                                _ => {},
                            },
                            None => {},
                        }
                    } else if str_eq(nm.as_str(), "Edit") {
                        match &b.input {
                            Some(inp) => match &inp.file_path {
                                Some(fp) => {
                                    let mut eo: u64 = 0;
                                    let mut en: u64 = 0;
                                    match &inp.old_string {
                                        Some(s) => {
                                            eo = crate::text::count_lines(s.as_str());
                                        },
                                        None => {},
                                    }
                                    match &inp.new_string {
                                        Some(s) => {
                                            en = crate::text::count_lines(s.as_str());
                                        },
                                        None => {},
                                    }
                                    proof {
                                        assert(eo == edit_old_lines(bs@[i as int]));
                                        assert(en == edit_new_lines(bs@[i as int]));
                                    }
                                    bump_file(v, fp.clone(), en, eo);
                                },
                                None => {},
                            },
                            None => {},
                        }
                    }
                },
                None => {},
            }
        }
        i = i + 1;
    }
    proof {
        assert(bs@.skip(n as int) =~= Seq::<ContentBlock>::empty());
    }
}

/// Builds the stored message list from the ordered events.
fn build_messages(sorted: &Vec<TaggedEvent>) -> (r: Vec<crate::models::ConversationMessage>)
    ensures
        r@.len() == sorted@.len(),
        forall|i: int| 0 <= i < sorted@.len() ==> msg_matches(#[trigger] r@[i], sorted@[i]),
{
    let n: usize = sorted.len();
    let mut msgs: Vec<crate::models::ConversationMessage> = Vec::new();
    let mut i: usize = 0;
    while i < n
        invariant
            n == sorted@.len(),
            0 <= i <= n,
            msgs@.len() == i,
            forall|k: int| 0 <= k < i ==> msg_matches(#[trigger] msgs@[k], sorted@[k]),
        decreases n - i,
    {
        let t = &sorted[i];
        let raw: String = match &t.event.message {
            Some(m) => extract_raw_text(&m.content),
            None => String::new(),
        };
        proof {
            assert(raw@ == raw_text(ev_content(sorted@[i as int])));
        }
        let stripped = strip_html(raw.as_str());
        let timestamp: String = match &t.event.timestamp {
            Some(ts) => ts.clone(),
            None => String::new(),
        };
        let uuid: String = match &t.event.uuid {
            Some(u) => u.clone(),
            None => String::new(),
        };
        let m: crate::models::ConversationMessage;
        if t.is_user {
            let trimmed = crate::text::trim_str(stripped.as_str());
            m = crate::models::ConversationMessage {
                role: String::from_str("user"),
                timestamp: timestamp,
                uuid: uuid,
                content: String::from_str(trimmed),
                usage: None,
            };
        } else {
            let clipped = clip_text(stripped);
            let trimmed = crate::text::trim_str(clipped.as_str());
            let usage: Option<TokenUsage> = match &t.event.message {
                Some(mm) => mm.usage,
                None => None,
            };
            m = crate::models::ConversationMessage {
                role: String::from_str("assistant"),
                timestamp: timestamp,
                uuid: uuid,
                content: String::from_str(trimmed),
                usage: usage,
            };
        }
        proof {
            assert(msg_matches(m, sorted@[i as int]));
        }
        msgs.push(m);
        i = i + 1;
    }
    msgs
}

/// Accumulates the token totals reported by the ordered events.
fn compute_tokens(sorted: &Vec<TaggedEvent>) -> (r: crate::models::TokenTotals)
    ensures
        r == tokens_acc(
            crate::models::TokenTotals { input: 0, output: 0, cache_read: 0, cache_creation: 0 },
            sorted@,
        ),
{
    let ghost zero = crate::models::TokenTotals { input: 0, output: 0, cache_read: 0, cache_creation: 0 };
    let n: usize = sorted.len();
    let mut acc = crate::models::TokenTotals::zero();
    let mut i: usize = 0;
    proof {
        assert(sorted@.skip(0) =~= sorted@);
    }
    while i < n
        invariant
            n == sorted@.len(),
            0 <= i <= n,
            tokens_acc(acc, sorted@.skip(i as int)) == tokens_acc(zero, sorted@),
        decreases n - i,
    {
        proof {
            assert(sorted@.skip(i as int)[0] == sorted@[i as int]);
            assert(sorted@.skip(i as int).skip(1) =~= sorted@.skip(i as int + 1));
        }
        let t = &sorted[i];
        if !t.is_user {
            match &t.event.message {
                Some(m) => match &m.usage {
                    Some(u) => {
                        acc = crate::models::TokenTotals {
                            input: crate::sat_add64(acc.input, crate::opt_or_zero(&u.input_tokens)),
                            output: crate::sat_add64(
                                acc.output,
                                crate::opt_or_zero(&u.output_tokens),
                            ),
                            cache_read: crate::sat_add64(
                                acc.cache_read,
                                crate::opt_or_zero(&u.cache_read_input_tokens),
                            ),
                            cache_creation: crate::sat_add64(
                                acc.cache_creation,
                                crate::opt_or_zero(&u.cache_creation_input_tokens),
                            ),
                        };
                    },
                    None => {},
                },
                None => {},
            }
        }
        i = i + 1;
    }
    proof {
        assert(sorted@.skip(n as int) =~= Seq::<TaggedEvent>::empty());
    }
    acc
}

/// The first non-empty model name an assistant event reports.
fn compute_model(sorted: &Vec<TaggedEvent>) -> (r: String)
    ensures
        r@ == model_acc(Seq::<char>::empty(), sorted@),
{
    let n: usize = sorted.len();
    let mut model = String::new();
    let mut i: usize = 0;
    proof {
        assert(sorted@.skip(0) =~= sorted@);
    }
    while i < n
        invariant
            n == sorted@.len(),
            0 <= i <= n,
            model_acc(model@, sorted@.skip(i as int)) == model_acc(Seq::<char>::empty(), sorted@),
        decreases n - i,
    {
        proof {
            assert(sorted@.skip(i as int)[0] == sorted@[i as int]);
            assert(sorted@.skip(i as int).skip(1) =~= sorted@.skip(i as int + 1));
        }
        let t = &sorted[i];
        if model.as_str().is_empty() && !t.is_user {
            match &t.event.message {
                Some(m) => match &m.model {
                    Some(mm) => {
                        model = mm.clone();
                    },
                    None => {},
                },
                None => {},
            }
        }
        i = i + 1;
    }
    proof {
        assert(sorted@.skip(n as int) =~= Seq::<TaggedEvent>::empty());
    }
    model
}

/// The first non-empty user display text: the session's first prompt.
fn compute_prompt(sorted: &Vec<TaggedEvent>) -> (r: String)
    ensures
        r@ == prompt_acc(Seq::<char>::empty(), sorted@),
{
    let n: usize = sorted.len();
    let mut prompt = String::new();
    let mut i: usize = 0;
    proof {
        assert(sorted@.skip(0) =~= sorted@);
    }
    while i < n
        invariant
            n == sorted@.len(),
            0 <= i <= n,
            prompt_acc(prompt@, sorted@.skip(i as int)) == prompt_acc(
                Seq::<char>::empty(),
                sorted@,
            ),
        decreases n - i,
    {
        proof {
            assert(sorted@.skip(i as int)[0] == sorted@[i as int]);
            assert(sorted@.skip(i as int).skip(1) =~= sorted@.skip(i as int + 1));
        }
        let t = &sorted[i];
        if prompt.as_str().is_empty() && t.is_user {
            match &t.event.message {
                Some(m) => {
                    prompt = extract_text(&m.content);
                },
                None => {
                    prompt = String::new();
                },
            }
            proof {
                assert(prompt@ == display_text(ev_content(sorted@[i as int])));
            }
        }
        i = i + 1;
    }
    proof {
        assert(sorted@.skip(n as int) =~= Seq::<TaggedEvent>::empty());
    }
    prompt
}

/// The human-contribution counters over the ordered events: lines,
/// words and characters of the stripped, trimmed user texts.
fn compute_human(sorted: &Vec<TaggedEvent>) -> (r: (u64, u64, u64))
    ensures
        r.0 == human_lines_acc(0, sorted@),
        r.1 == human_words_acc(0, sorted@),
        r.2 == human_chars_acc(0, sorted@),
{
    let n: usize = sorted.len();
    let mut hl: u64 = 0;
    let mut hw: u64 = 0;
    let mut hc: u64 = 0;
    let mut i: usize = 0;
    proof {
        assert(sorted@.skip(0) =~= sorted@);
    }
    while i < n
        invariant
            n == sorted@.len(),
            0 <= i <= n,
            human_lines_acc(hl, sorted@.skip(i as int)) == human_lines_acc(0, sorted@),
            human_words_acc(hw, sorted@.skip(i as int)) == human_words_acc(0, sorted@),
            human_chars_acc(hc, sorted@.skip(i as int)) == human_chars_acc(0, sorted@),
        decreases n - i,
    {
        proof {
            assert(sorted@.skip(i as int)[0] == sorted@[i as int]);
            assert(sorted@.skip(i as int).skip(1) =~= sorted@.skip(i as int + 1));
        }
        let t = &sorted[i];
        if t.is_user {
            let raw: String = match &t.event.message {
                Some(m) => extract_raw_text(&m.content),
                None => String::new(),
            };
            proof {
                assert(raw@ == raw_text(ev_content(sorted@[i as int])));
            }
            let stripped = strip_html(raw.as_str());
            let trimmed = crate::text::trim_str(stripped.as_str());
            proof {
                assert(trimmed@ == human_text(sorted@[i as int]));
            }
            let tl = crate::text::count_lines(trimmed);
            let tw = crate::text::count_words(trimmed);
            let tc: usize = trimmed.unicode_len();
            hl = crate::sat_add64(hl, tl);
            hw = crate::sat_add64(hw, tw);
            hc = crate::sat_add64(hc, tc as u64);
        }
        i = i + 1;
    }
    proof {
        assert(sorted@.skip(n as int) =~= Seq::<TaggedEvent>::empty());
    }
    (hl, hw, hc)
}

/// The tool-usage, line and file accounting over the ordered events.
fn compute_block_accounting(sorted: &Vec<TaggedEvent>) -> (r: (
    Vec<crate::models::ToolCount>,
    u64,
    u64,
    Vec<crate::models::FileEntry>,
))
    ensures
        r.0@ == tools_acc(Seq::<crate::models::ToolCount>::empty(), sorted@),
        r.1 == lines_added_acc(0, sorted@),
        r.2 == lines_removed_acc(0, sorted@),
        r.3@ == files_acc(Seq::<crate::models::FileEntry>::empty(), sorted@),
{
    let n: usize = sorted.len();
    let mut tools: Vec<crate::models::ToolCount> = Vec::new();
    let mut la: u64 = 0;
    let mut lr: u64 = 0;
    let mut files: Vec<crate::models::FileEntry> = Vec::new();
    let mut i: usize = 0;
    proof {
        assert(sorted@.skip(0) =~= sorted@);
    }
    while i < n
        invariant
            n == sorted@.len(),
            0 <= i <= n,
            tools_acc(tools@, sorted@.skip(i as int)) == tools_acc(
                Seq::<crate::models::ToolCount>::empty(),
                sorted@,
            ),
            lines_added_acc(la, sorted@.skip(i as int)) == lines_added_acc(0, sorted@),
            lines_removed_acc(lr, sorted@.skip(i as int)) == lines_removed_acc(0, sorted@),
            files_acc(files@, sorted@.skip(i as int)) == files_acc(
                Seq::<crate::models::FileEntry>::empty(),
                sorted@,
            ),
        decreases n - i,
    {
        proof {
            assert(sorted@.skip(i as int)[0] == sorted@[i as int]);
            assert(sorted@.skip(i as int).skip(1) =~= sorted@.skip(i as int + 1));
        }
        let t = &sorted[i];
        if !t.is_user {
            match &t.event.message {
                Some(m) => match &m.content {
                    RawContent::Blocks(bs) => {
                        proof {
                            assert(blocks_of(sorted@[i as int]) == bs@);
                        }
                        tools_from_blocks(&mut tools, bs);
                        let pair = lines_from_blocks(la, lr, bs);
                        la = pair.0;
                        lr = pair.1;
                        files_from_blocks(&mut files, bs);
                    },
                    _ => {},
                },
                None => {},
            }
        }
        i = i + 1;
    }
    proof {
        assert(sorted@.skip(n as int) =~= Seq::<TaggedEvent>::empty());
    }
    (tools, la, lr, files)
}

/// Builds the canonical session from the kept raw events of one log.
pub fn build_claude_session(events: Vec<RawEvent>, session_id: &str, project_id: &str) -> (r: crate::models::ParsedSession)
    ensures
        session_matches(r, events@, session_id@, project_id@),
{
    let ghost all: Seq<RawEvent> = events@;
    let kept = filter_kept(events);
    let header = scan_header(&kept);
    let merged = partition_events(kept);
    let sorted = sort_events(merged);
    proof {
        assert(sorted@ == ordered_events(kept_events(all)));
    }
    let messages = build_messages(&sorted);
    let tokens = compute_tokens(&sorted);
    let model = compute_model(&sorted);
    let prompt = compute_prompt(&sorted);
    let human = compute_human(&sorted);
    let blocks = compute_block_accounting(&sorted);
    crate::models::ParsedSession {
        session_id: String::from_str(session_id),
        project_id: String::from_str(project_id),
        cwd: header.0,
        messages: messages,
        tool_usage: blocks.0,
        total_tokens: tokens,
        duration_ms: header.3,
        lines_added: blocks.1,
        lines_removed: blocks.2,
        file_contributions: blocks.3,
        first_prompt: prompt,
        started_at: header.1,
        last_active: header.2,
        human_lines: human.0,
        human_words: human.1,
        human_chars: human.2,
        model: model,
        source: crate::models::DataSource::Claude,
    }
}

// --- Reading raw records out of JSON values. A record whose fields do
// --- not have the expected types is refused, and its line dropped.

/// Reads an optional string field: absent or null is `None`; any other
/// non-string value refuses the record.
pub(crate) fn opt_str_field(v: &serde_json::Value, key: &str) -> Option<Option<String>> {
    match crate::json::value_get(v, key) {
        None => Some(None),
        Some(x) => {
            if crate::json::value_is_null(x) {
                Some(None)
            } else {
                match crate::json::value_as_str(x) {
                    Some(s) => Some(Some(String::from_str(s))),
                    None => None,
                }
            }
        },
    }
}

/// Reads an optional unsigned counter field, as `opt_str_field` does
/// for strings.
pub(crate) fn opt_u64_field(v: &serde_json::Value, key: &str) -> Option<Option<u64>> {
    match crate::json::value_get(v, key) {
        None => Some(None),
        Some(x) => {
            if crate::json::value_is_null(x) {
                Some(None)
            } else {
                match crate::json::value_as_u64(x) {
                    Some(n) => Some(Some(n)),
                    None => None,
                }
            }
        },
    }
}

/// Reads an optional integer field, as `opt_str_field` does for
/// strings.
pub(crate) fn opt_i64_field(v: &serde_json::Value, key: &str) -> Option<Option<i64>> {
    match crate::json::value_get(v, key) {
        None => Some(None),
        Some(x) => {
            if crate::json::value_is_null(x) {
                Some(None)
            } else {
                match crate::json::value_as_i64(x) {
                    Some(n) => Some(Some(n)),
                    None => None,
                }
            }
        },
    }
}

/// Reads a token-usage object.
fn usage_of_value(v: &serde_json::Value) -> Option<TokenUsage> {
    let input_tokens = match opt_u64_field(v, "input_tokens") {
        Some(x) => x,
        None => {
            return None;
        },
    };
    let output_tokens = match opt_u64_field(v, "output_tokens") {
        Some(x) => x,
        None => {
            return None;
        },
    };
    let cache_read = match opt_u64_field(v, "cache_read_input_tokens") {
        Some(x) => x,
        None => {
            return None;
        },
    };
    let cache_creation = match opt_u64_field(v, "cache_creation_input_tokens") {
        Some(x) => x,
        None => {
            return None;
        },
    };
    Some(
        TokenUsage {
            input_tokens: input_tokens,
            output_tokens: output_tokens,
            cache_read_input_tokens: cache_read,
            cache_creation_input_tokens: cache_creation,
        },
    )
}

/// Reads an integer field loosely: anything but an integer reads as
/// absent, so a fractional duration or time drops the value, not the
/// record.
pub(crate) fn loose_i64_field(v: &serde_json::Value, key: &str) -> Option<i64> {
    match crate::json::value_get(v, key) {
        Some(x) => crate::json::value_as_i64(x),
        None => None,
    }
}

/// Reads a string field of a block or input object, loosely: anything
/// but a string reads as absent.
pub(crate) fn loose_str_field(v: &serde_json::Value, key: &str) -> Option<String> {
    match crate::json::value_get(v, key) {
        Some(x) => match crate::json::value_as_str(x) {
            Some(s) => Some(String::from_str(s)),
            None => None,
        },
        None => None,
    }
}

/// Reads a tool-use input object.
fn input_of_value(v: &serde_json::Value) -> crate::models::ToolInput {
    crate::models::ToolInput {
        content: loose_str_field(v, "content"),
        file_path: loose_str_field(v, "file_path"),
        old_string: loose_str_field(v, "old_string"),
        new_string: loose_str_field(v, "new_string"),
    }
}

/// Reads one content block; any shape is accepted, missing pieces read
/// as absent.
fn block_of_value(v: &serde_json::Value) -> ContentBlock {
    let block_type: String = match crate::json::value_get(v, "type") {
        Some(x) => match crate::json::value_as_str(x) {
            Some(s) => String::from_str(s),
            None => String::new(),
        },
        None => String::new(),
    };
    let input: Option<crate::models::ToolInput> = match crate::json::value_get(v, "input") {
        Some(x) => Some(input_of_value(x)),
        None => None,
    };
    ContentBlock {
        block_type: block_type,
        text: loose_str_field(v, "text"),
        name: loose_str_field(v, "name"),
        input: input,
    }
}

/// Reads a message content value: a string, an array of blocks, or
/// anything else.
fn content_of_value(v: &serde_json::Value) -> RawContent {
    match crate::json::value_as_str(v) {
        Some(s) => RawContent::Text(String::from_str(s)),
        None => match crate::json::value_as_array(v) {
            Some(arr) => {
                let n: usize = arr.len();
                let mut blocks: Vec<ContentBlock> = Vec::new();
                let mut i: usize = 0;
                while i < n
                    invariant
                        n == arr@.len(),
                        0 <= i <= n,
                    decreases n - i,
                {
                    blocks.push(block_of_value(&arr[i]));
                    i = i + 1;
                }
                RawContent::Blocks(blocks)
            },
            None => RawContent::Other,
        },
    }
}

/// Reads a message object; a missing role or content refuses it.
fn message_of_value(v: &serde_json::Value) -> Option<RawMessage> {
    let role: String = match crate::json::value_get(v, "role") {
        Some(x) => match crate::json::value_as_str(x) {
            Some(s) => String::from_str(s),
            None => {
                return None;
            },
        },
        None => {
            return None;
        },
    };
    let content: RawContent = match crate::json::value_get(v, "content") {
        Some(x) => content_of_value(x),
        None => {
            return None;
        },
    };
    let model = match opt_str_field(v, "model") {
        Some(x) => x,
        None => {
            return None;
        },
    };
    let id = match opt_str_field(v, "id") {
        Some(x) => x,
        None => {
            return None;
        },
    };
    let usage: Option<TokenUsage> = match crate::json::value_get(v, "usage") {
        Some(x) => {
            if crate::json::value_is_null(x) {
                None
            } else {
                match usage_of_value(x) {
                    Some(u) => Some(u),
                    None => {
                        return None;
                    },
                }
            }
        },
        None => None,
    };
    Some(RawMessage { role: role, content: content, model: model, id: id, usage: usage })
}

/// Reads one raw event; a record without a string `type`, or with a
/// field of an unexpected type, is refused.
fn event_of_value(v: &serde_json::Value) -> Option<RawEvent> {
    let event_type: String = match crate::json::value_get(v, "type") {
        Some(x) => match crate::json::value_as_str(x) {
            Some(s) => String::from_str(s),
            None => {
                return None;
            },
        },
        None => {
            return None;
        },
    };
    let subtype = match opt_str_field(v, "subtype") {
        Some(x) => x,
        None => {
            return None;
        },
    };
    let session_id = match opt_str_field(v, "sessionId") {
        Some(x) => x,
        None => {
            return None;
        },
    };
    let cwd = match opt_str_field(v, "cwd") {
        Some(x) => x,
        None => {
            return None;
        },
    };
    let uuid = match opt_str_field(v, "uuid") {
        Some(x) => x,
        None => {
            return None;
        },
    };
    let timestamp = match opt_str_field(v, "timestamp") {
        Some(x) => x,
        None => {
            return None;
        },
    };
    let duration_ms = loose_i64_field(v, "durationMs");
    let message: Option<RawMessage> = match crate::json::value_get(v, "message") {
        Some(x) => {
            if crate::json::value_is_null(x) {
                None
            } else {
                match message_of_value(x) {
                    Some(m) => Some(m),
                    None => {
                        return None;
                    },
                }
            }
        },
        None => None,
    };
    Some(
        RawEvent {
            event_type: event_type,
            subtype: subtype,
            session_id: session_id,
            cwd: cwd,
            uuid: uuid,
            timestamp: timestamp,
            message: message,
            duration_ms: duration_ms,
        },
    )
}

/// The record one line of text parses to: `None` where the text is
/// not valid JSON or a field of the record has an unexpected type.
/// A name for what the parse returns: the same text always yields
/// the same record.
pub uninterp spec fn event_of(line: Seq<char>) -> Option<RawEvent>;

/// Relies on serde_json's `from_str`: the parse is a function of the
/// line's text alone. The record reading on top of it —
/// `event_of_value` over the pure `Value` accessors — is equally
/// deterministic, so the composite result is the one `event_of`
/// names.
#[verifier::external_body]
fn parse_event_line(line: &str) -> (r: Option<RawEvent>)
    ensures
        r == event_of(line@),
{
    match crate::json::json_from_str(line) {
        Some(v) => event_of_value(&v),
        None => None,
    }
}

/// What one log line yields: the record its trimmed text parses to,
/// or nothing for a blank line.
pub open spec fn line_event(l: String) -> Option<RawEvent> {
    let t = crate::text::trim_spec(l@);
    if t.len() == 0 {
        None
    } else {
        event_of(t)
    }
}

/// The raw events of a log's lines, in order.
pub open spec fn line_events(lines: Seq<String>) -> Seq<RawEvent>
    decreases lines.len(),
{
    if lines.len() == 0 {
        Seq::<RawEvent>::empty()
    } else {
        (match line_event(lines[0]) {
            Some(e) => seq![e],
            None => Seq::<RawEvent>::empty(),
        }) + line_events(lines.skip(1))
    }
}

/// Number of non-blank lines whose record is refused.
pub open spec fn dropped_lines(lines: Seq<String>) -> int
    decreases lines.len(),
{
    if lines.len() == 0 {
        0
    } else {
        (if crate::text::trim_spec(lines[0]@).len() > 0 && line_event(lines[0]) is None {
            1int
        } else {
            0int
        }) + dropped_lines(lines.skip(1))
    }
}

proof fn lemma_dropped_lines_bound(lines: Seq<String>)
    ensures
        0 <= dropped_lines(lines) <= lines.len(),
    decreases lines.len(),
{
    if lines.len() > 0 {
        lemma_dropped_lines_bound(lines.skip(1));
    }
}

/// Parses the lines of one log into a session: each non-blank line is
/// one JSON record, and a line that fails to parse is dropped without
/// aborting the file. The session is the one built from exactly the
/// records the lines parse to, and the count is exactly the non-blank
/// lines that were refused.
pub fn parse_session_lines(lines: &Vec<String>, session_id: &str, project_id: &str) -> (r: (
    crate::models::ParsedSession,
    u64,
))
    ensures
        session_matches(r.0, line_events(lines@), session_id@, project_id@),
        r.1 == dropped_lines(lines@),
{
    let n: usize = lines.len();
    let mut events: Vec<RawEvent> = Vec::new();
    let mut skipped: u64 = 0;
    let mut i: usize = 0;
    proof {
        assert(lines@.skip(0) =~= lines@);
        assert(events@ + line_events(lines@) =~= line_events(lines@));
    }
    while i < n
        invariant
            n == lines@.len(),
            0 <= i <= n,
            events@ + line_events(lines@.skip(i as int)) == line_events(lines@),
            skipped + dropped_lines(lines@.skip(i as int)) == dropped_lines(lines@),
        decreases n - i,
    {
        let ghost suf: Seq<String> = lines@.skip(i as int);
        proof {
            assert(suf[0] == lines@[i as int]);
            assert(suf.skip(1) =~= lines@.skip(i as int + 1));
            lemma_dropped_lines_bound(lines@);
            lemma_dropped_lines_bound(suf.skip(1));
        }
        let line: &str = crate::text::trim_str(lines[i].as_str());
        if line.is_empty() {
            proof {
                assert(line_events(suf) =~= line_events(suf.skip(1)));
            }
        } else {
            match parse_event_line(line) {
                Some(e) => {
                    proof {
                        assert(line_event(lines@[i as int]) == Some(e));
                        assert(line_events(suf) =~= seq![e] + line_events(suf.skip(1)));
                    }
                    events.push(e);
                    proof {
                        assert(events@ + line_events(suf.skip(1)) =~= line_events(lines@));
                    }
                },
                None => {
                    proof {
                        assert(line_event(lines@[i as int]) is None);
                        assert(line_events(suf) =~= line_events(suf.skip(1)));
                    }
                    skipped = skipped + 1;
                },
            }
        }
        i = i + 1;
    }
    proof {
        assert(line_events(lines@.skip(n as int)) =~= Seq::<RawEvent>::empty());
        assert(dropped_lines(lines@.skip(n as int)) == 0);
        assert(events@ =~= events@ + line_events(lines@.skip(n as int)));
    }
    let ghost evs: Seq<RawEvent> = events@;
    let session = build_claude_session(events, session_id, project_id);
    let pair: (crate::models::ParsedSession, u64) = (session, skipped);
    proof {
        assert(evs == line_events(lines@));
        assert(session_matches(pair.0, line_events(lines@), session_id@, project_id@));
        assert(pair.1 == dropped_lines(lines@));
    }
    pair
}

/// Law: parsing the same log content twice yields the same session —
/// the event list is fixed by the lines alone, so any two results
/// meeting the parse contract agree on every field.
pub proof fn lemma_parse_deterministic(
    a: crate::models::ParsedSession,
    b: crate::models::ParsedSession,
    lines: Seq<String>,
    sid: Seq<char>,
    pid: Seq<char>,
)
    requires
        session_matches(a, line_events(lines), sid, pid),
        session_matches(b, line_events(lines), sid, pid),
    ensures
        a.session_id@ == b.session_id@,
        a.project_id@ == b.project_id@,
        a.cwd@ == b.cwd@,
        a.started_at@ == b.started_at@,
        a.last_active@ == b.last_active@,
        a.duration_ms == b.duration_ms,
        a.total_tokens == b.total_tokens,
        a.model@ == b.model@,
        a.first_prompt@ == b.first_prompt@,
        a.human_lines == b.human_lines,
        a.human_words == b.human_words,
        a.human_chars == b.human_chars,
        a.tool_usage@ == b.tool_usage@,
        a.lines_added == b.lines_added,
        a.lines_removed == b.lines_removed,
        a.file_contributions@ == b.file_contributions@,
        a.source == b.source,
        a.messages@.len() == b.messages@.len(),
        forall|i: int|
            0 <= i < a.messages@.len() ==> {
                &&& (#[trigger] a.messages@[i]).role@ == b.messages@[i].role@
                &&& a.messages@[i].timestamp@ == b.messages@[i].timestamp@
                &&& a.messages@[i].uuid@ == b.messages@[i].uuid@
                &&& a.messages@[i].content@ == b.messages@[i].content@
                &&& a.messages@[i].usage == b.messages@[i].usage
            },
{
    lemma_session_determined(a, b, line_events(lines), sid, pid);
}

/// The first timestamp value of `evs` (empty or not), folded into
/// `acc`, as the quick metadata scan keeps it.
pub open spec fn meta_started_acc(acc: Seq<char>, evs: Seq<RawEvent>) -> Seq<char>
    decreases evs.len(),
{
    if evs.len() == 0 {
        acc
    } else {
        let a2 = if acc.len() == 0 {
            match evs[0].timestamp {
                Some(t) => t@,
                None => acc,
            }
        } else {
            acc
        };
        meta_started_acc(a2, evs.skip(1))
    }
}

/// Reads session metadata from the head of a log: the first working
/// directory and the first timestamp of the records that the first
/// twenty lines parse to; a field never seen stays empty.
pub fn parse_session_metadata(lines: &Vec<String>) -> (r: (String, String))
    ensures
        ({
            let scan = lines@.take(
                if lines@.len() < 20 {
                    lines@.len() as int
                } else {
                    20int
                },
            );
            &&& r.0@ == cwd_acc(Seq::<char>::empty(), line_events(scan))
            &&& r.1@ == meta_started_acc(Seq::<char>::empty(), line_events(scan))
        }),
{
    let n: usize = lines.len();
    let limit: usize = if n < 20 {
        n
    } else {
        20
    };
    let ghost scan: Seq<String> = lines@.take(limit as int);
    let mut cwd = String::new();
    let mut started = String::new();
    let mut i: usize = 0;
    proof {
        assert(scan.skip(0) =~= scan);
    }
    while i < limit
        invariant
            n == lines@.len(),
            limit <= n,
            limit <= 20,
            n < 20 ==> limit == n,
            n >= 20 ==> limit == 20,
            0 <= i <= limit,
            scan == lines@.take(limit as int),
            cwd_acc(cwd@, line_events(scan.skip(i as int))) == cwd_acc(
                Seq::<char>::empty(),
                line_events(scan),
            ),
            meta_started_acc(started@, line_events(scan.skip(i as int))) == meta_started_acc(
                Seq::<char>::empty(),
                line_events(scan),
            ),
        decreases limit - i,
    {
        let ghost suf: Seq<String> = scan.skip(i as int);
        proof {
            assert(suf[0] == scan[i as int]);
            assert(scan[i as int] == lines@[i as int]);
            assert(suf.skip(1) =~= scan.skip(i as int + 1));
        }
        let line: &str = crate::text::trim_str(lines[i].as_str());
        if line.is_empty() {
            proof {
                assert(line_events(suf) =~= line_events(suf.skip(1)));
            }
        } else {
            match parse_event_line(line) {
                Some(e) => {
                    proof {
                        assert(line_event(scan[i as int]) == Some(e));
                        assert(line_events(suf) =~= seq![e] + line_events(suf.skip(1)));
                        assert((seq![e] + line_events(suf.skip(1)))[0] == e);
                        assert((seq![e] + line_events(suf.skip(1))).skip(1) =~= line_events(
                            suf.skip(1),
                        ));
                    }
                    if cwd.as_str().is_empty() {
                        match &e.cwd {
                            Some(c) => {
                                cwd = c.clone();
                            },
                            None => {},
                        }
                    }
                    if started.as_str().is_empty() {
                        match &e.timestamp {
                            Some(t) => {
                                started = t.clone();
                            },
                            None => {},
                        }
                    }
                },
                None => {
                    proof {
                        assert(line_event(scan[i as int]) is None);
                        assert(line_events(suf) =~= line_events(suf.skip(1)));
                    }
                },
            }
        }
        i = i + 1;
    }
    proof {
        assert(line_events(scan.skip(limit as int)) =~= Seq::<RawEvent>::empty());
    }
    (cwd, started)
}

/// Law: the session a log's events yield is determined by those
/// events alone — two sessions built from the same event list agree on
/// every field, so parsing the same content twice yields the same
/// session.
pub proof fn lemma_session_determined(
    a: crate::models::ParsedSession,
    b: crate::models::ParsedSession,
    evs: Seq<RawEvent>,
    sid: Seq<char>,
    pid: Seq<char>,
)
    requires
        session_matches(a, evs, sid, pid),
        session_matches(b, evs, sid, pid),
    ensures
        a.session_id@ == b.session_id@,
        a.project_id@ == b.project_id@,
        a.cwd@ == b.cwd@,
        a.started_at@ == b.started_at@,
        a.last_active@ == b.last_active@,
        a.duration_ms == b.duration_ms,
        a.total_tokens == b.total_tokens,
        a.model@ == b.model@,
        a.first_prompt@ == b.first_prompt@,
        a.human_lines == b.human_lines,
        a.human_words == b.human_words,
        a.human_chars == b.human_chars,
        a.tool_usage@ == b.tool_usage@,
        a.lines_added == b.lines_added,
        a.lines_removed == b.lines_removed,
        a.file_contributions@ == b.file_contributions@,
        a.source == b.source,
        a.messages@.len() == b.messages@.len(),
        forall|i: int|
            0 <= i < a.messages@.len() ==> {
                &&& (#[trigger] a.messages@[i]).role@ == b.messages@[i].role@
                &&& a.messages@[i].timestamp@ == b.messages@[i].timestamp@
                &&& a.messages@[i].uuid@ == b.messages@[i].uuid@
                &&& a.messages@[i].content@ == b.messages@[i].content@
                &&& a.messages@[i].usage == b.messages@[i].usage
            },
{
    let ord = ordered_events(kept_events(evs));
    assert forall|i: int| 0 <= i < a.messages@.len() implies {
        &&& (#[trigger] a.messages@[i]).role@ == b.messages@[i].role@
        &&& a.messages@[i].timestamp@ == b.messages@[i].timestamp@
        &&& a.messages@[i].uuid@ == b.messages@[i].uuid@
        &&& a.messages@[i].content@ == b.messages@[i].content@
        &&& a.messages@[i].usage == b.messages@[i].usage
    } by {
        assert(msg_matches(a.messages@[i], ord[i]));
        assert(msg_matches(b.messages@[i], ord[i]));
    }
}

/// Stably sorts tagged events by timestamp.
fn sort_events(input: Vec<TaggedEvent>) -> (r: Vec<TaggedEvent>)
    ensures
        r@ == sort_by_ts(input@),
{
    let ghost orig: Seq<TaggedEvent> = input@;
    let mut rest = input;
    let mut out: Vec<TaggedEvent> = Vec::new();
    let ghost mut done: Seq<TaggedEvent> = Seq::<TaggedEvent>::empty();
    proof {
        assert(done + rest@ =~= orig);
    }
    while rest.len() > 0
        invariant
            done + rest@ == orig,
            out@ == sort_by_ts(done),
        decreases rest@.len(),
    {
        let ghost prev: Seq<TaggedEvent> = rest@;
        let t = rest.remove(0);
        proof {
            let d2 = done.push(t);
            assert(d2.drop_last() =~= done);
            assert(d2 + rest@ =~= done + prev);
            done = d2;
        }
        insert_sorted(&mut out, t);
    }
    proof {
        assert(done =~= orig);
    }
    out
}

} // verus!
