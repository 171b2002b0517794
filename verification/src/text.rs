//! Character-level utilities shared by the normalizers and formatters:
//! lexicographic comparison, whitespace handling, line/word counting and
//! decimal rendering, all specified over `Seq<char>` views.
use vstd::prelude::*;

verus! {

/// Lexicographic order on character sequences, by code point. For the
/// ASCII timestamp and date strings this crate compares, it agrees with
/// the byte order `str::cmp` uses.
pub open spec fn lex_le(a: Seq<char>, b: Seq<char>) -> bool
    decreases a.len(),
{
    if a.len() == 0 {
        true
    } else if b.len() == 0 {
        false
    } else if a[0] == b[0] {
        lex_le(a.skip(1), b.skip(1))
    } else {
        (a[0] as u32) < (b[0] as u32)
    }
}

/// Decides `lex_le` on string slices.
pub fn str_le(a: &str, b: &str) -> (r: bool)
    ensures
        r == lex_le(a@, b@),
    decreases a@.len(),
{
    let alen: usize = a.unicode_len();
    let blen: usize = b.unicode_len();
    if alen == 0 {
        true
    } else if blen == 0 {
        false
    } else {
        let ca = a.get_char(0);
        let cb = b.get_char(0);
        if ca == cb {
            str_le(a.substring_char(1, alen), b.substring_char(1, blen))
        } else {
            (ca as u32) < (cb as u32)
        }
    }
}

/// String equality on views.
pub fn str_eq(a: &str, b: &str) -> (r: bool)
    ensures
        r == (a@ == b@),
{
    let x = String::from_str(a);
    let y = String::from_str(b);
    x == y
}

/// The whitespace characters this crate recognizes (the ASCII ones).
pub open spec fn is_space(c: char) -> bool {
    c == ' ' || c == '\t' || c == '\n' || c == '\r' || c == '\u{b}' || c == '\u{c}'
}

/// Decides `is_space`.
pub fn is_space_char(c: char) -> (r: bool)
    ensures
        r == is_space(c),
{
    c == ' ' || c == '\t' || c == '\n' || c == '\r' || c == '\u{b}' || c == '\u{c}'
}

/// Number of newline characters in `s`.
pub open spec fn nl_count(s: Seq<char>) -> nat
    decreases s.len(),
{
    if s.len() == 0 {
        0
    } else {
        (if s[0] == '\n' {
            1nat
        } else {
            0nat
        }) + nl_count(s.skip(1))
    }
}

/// Number of lines of `s`, as `str::lines` counts them: the empty text has
/// no line, and a trailing newline does not open a new one.
pub open spec fn line_count(s: Seq<char>) -> nat {
    if s.len() == 0 {
        0
    } else {
        1 + nl_count(s.subrange(0, s.len() - 1))
    }
}

proof fn lemma_nl_count_bound(s: Seq<char>)
    ensures
        nl_count(s) <= s.len(),
    decreases s.len(),
{
    if s.len() > 0 {
        lemma_nl_count_bound(s.skip(1));
    }
}

/// Counts the lines of `s`.
pub fn count_lines(s: &str) -> (r: u64)
    ensures
        r == line_count(s@),
{
    let n: usize = s.unicode_len();
    if n == 0 {
        return 0;
    }
    let ghost t: Seq<char> = s@.subrange(0, s@.len() - 1);
    let mut cnt: u64 = 0;
    let mut i: usize = 0;
    proof {
        lemma_nl_count_bound(t);
        assert(t.skip(0) =~= t);
    }
    while i < n - 1
        invariant
            n == s@.len(),
            n >= 1,
            0 <= i <= n - 1,
            t == s@.subrange(0, s@.len() - 1),
            cnt + nl_count(t.skip(i as int)) == nl_count(t),
            cnt <= i,
        decreases n - 1 - i,
    {
        let c = s.get_char(i);
        proof {
            assert(t.skip(i as int)[0] == t[i as int]);
            assert(t.skip(i as int).skip(1) =~= t.skip(i as int + 1));
        }
        if c == '\n' {
            cnt = cnt + 1;
        }
        i = i + 1;
    }
    proof {
        assert(t.skip(i as int) =~= Seq::<char>::empty());
    }
    cnt + 1
}

/// Number of whitespace-separated words, as `str::split_whitespace` counts
/// them, starting in the given state.
pub open spec fn word_count_from(s: Seq<char>, in_word: bool) -> nat
    decreases s.len(),
{
    if s.len() == 0 {
        0
    } else if is_space(s[0]) {
        word_count_from(s.skip(1), false)
    } else if in_word {
        word_count_from(s.skip(1), true)
    } else {
        1 + word_count_from(s.skip(1), true)
    }
}

/// Number of whitespace-separated words of `s`.
pub open spec fn word_count(s: Seq<char>) -> nat {
    word_count_from(s, false)
}

proof fn lemma_word_count_bound(s: Seq<char>, in_word: bool)
    ensures
        word_count_from(s, in_word) <= s.len(),
    decreases s.len(),
{
    if s.len() > 0 {
        lemma_word_count_bound(s.skip(1), false);
        lemma_word_count_bound(s.skip(1), true);
    }
}

/// Counts the words of `s`.
pub fn count_words(s: &str) -> (r: u64)
    ensures
        r == word_count(s@),
{
    let n: usize = s.unicode_len();
    let mut cnt: u64 = 0;
    let mut in_word: bool = false;
    let mut i: usize = 0;
    proof {
        lemma_word_count_bound(s@, false);
        assert(s@.skip(0) =~= s@);
    }
    while i < n
        invariant
            n == s@.len(),
            0 <= i <= n,
            cnt + word_count_from(s@.skip(i as int), in_word) == word_count(s@),
            cnt <= i,
        decreases n - i,
    {
        let c = s.get_char(i);
        proof {
            assert(s@.skip(i as int)[0] == s@[i as int]);
            assert(s@.skip(i as int).skip(1) =~= s@.skip(i as int + 1));
            lemma_word_count_bound(s@.skip(i as int + 1), true);
            lemma_word_count_bound(s@.skip(i as int + 1), false);
        }
        if is_space_char(c) {
            in_word = false;
        } else if !in_word {
            cnt = cnt + 1;
            in_word = true;
        }
        i = i + 1;
    }
    proof {
        assert(s@.skip(i as int) =~= Seq::<char>::empty());
    }
    cnt
}

/// Count of leading whitespace characters.
pub open spec fn lead_spaces(s: Seq<char>) -> int
    decreases s.len(),
{
    if s.len() == 0 || !is_space(s[0]) {
        0
    } else {
        1 + lead_spaces(s.skip(1))
    }
}

/// Count of trailing whitespace characters.
pub open spec fn trail_spaces(s: Seq<char>) -> int
    decreases s.len(),
{
    if s.len() == 0 || !is_space(s.last()) {
        0
    } else {
        1 + trail_spaces(s.drop_last())
    }
}

/// `s` with leading and trailing whitespace removed, as `str::trim` does.
pub open spec fn trim_spec(s: Seq<char>) -> Seq<char> {
    if lead_spaces(s) == s.len() {
        Seq::<char>::empty()
    } else {
        s.subrange(lead_spaces(s), s.len() - trail_spaces(s))
    }
}

proof fn lemma_lead_spaces(s: Seq<char>, i: int)
    requires
        0 <= i <= s.len(),
        forall|j: int| 0 <= j < i ==> is_space(s[j]),
        i < s.len() ==> !is_space(s[i]),
    ensures
        lead_spaces(s) == i,
    decreases i,
{
    if i > 0 {
        lemma_lead_spaces(s.skip(1), i - 1);
    }
}

proof fn lemma_trail_spaces(s: Seq<char>, k: int)
    requires
        0 <= k <= s.len(),
        forall|j: int| s.len() - k <= j < s.len() ==> is_space(s[j]),
        k < s.len() ==> !is_space(s[s.len() - 1 - k]),
    ensures
        trail_spaces(s) == k,
    decreases k,
{
    if k > 0 {
        lemma_trail_spaces(s.drop_last(), k - 1);
    }
}

/// Trims whitespace from both ends of `s`.
pub fn trim_str(s: &str) -> (r: &str)
    ensures
        r@ == trim_spec(s@),
{
    let n: usize = s.unicode_len();
    let mut lead: usize = 0;
    while lead < n && is_space_char(s.get_char(lead))
        invariant
            n == s@.len(),
            0 <= lead <= n,
            forall|j: int| 0 <= j < lead ==> is_space(s@[j]),
        decreases n - lead,
    {
        lead = lead + 1;
    }
    proof {
        lemma_lead_spaces(s@, lead as int);
    }
    if lead == n {
        let r = s.substring_char(n, n);
        proof {
            assert(r@ =~= Seq::<char>::empty());
        }
        return r;
    }
    let mut k: usize = 0;
    while is_space_char(s.get_char(n - 1 - k))
        invariant
            n == s@.len(),
            lead < n,
            !is_space(s@[lead as int]),
            0 <= k <= n - 1 - lead,
            forall|j: int| n - k <= j < n ==> is_space(s@[j]),
        decreases n - k,
    {
        k = k + 1;
    }
    proof {
        lemma_trail_spaces(s@, k as int);
    }
    s.substring_char(lead, n - k)
}

/// A single decimal digit as a character.
pub open spec fn digit_char(d: int) -> char {
    ((48 + d) as u8) as char
}

/// The decimal numeral of a nonnegative integer.
pub open spec fn dec_str(n: int) -> Seq<char>
    decreases n,
{
    if n < 10 {
        seq![digit_char(n)]
    } else {
        dec_str(n / 10).push(digit_char(n % 10))
    }
}

/// First index of `c` in `s`; `s.len()` if absent.
pub open spec fn find_char(s: Seq<char>, c: char) -> int
    decreases s.len(),
{
    if s.len() == 0 {
        0
    } else if s[0] == c {
        0
    } else {
        1 + find_char(s.skip(1), c)
    }
}

/// The prefix of `s` before the first `c`: the whole of `s` if there
/// is none.
pub open spec fn before_char(s: Seq<char>, c: char) -> Seq<char> {
    s.subrange(0, find_char(s, c))
}

proof fn lemma_find_char_at(s: Seq<char>, c: char, j: int)
    requires
        0 <= j <= s.len(),
        forall|k: int| 0 <= k < j ==> s[k] != c,
        j < s.len() ==> s[j] == c,
    ensures
        find_char(s, c) == j,
    decreases j,
{
    if j > 0 {
        lemma_find_char_at(s.skip(1), c, j - 1);
    }
}

/// The prefix of `s` before the first `c`.
pub fn str_before_char(s: &str, c: char) -> (r: &str)
    ensures
        r@ == before_char(s@, c),
{
    let n: usize = s.unicode_len();
    let mut i: usize = 0;
    while i < n
        invariant
            n == s@.len(),
            0 <= i <= n,
            forall|k: int| 0 <= k < i ==> s@[k] != c,
        decreases n - i,
    {
        if s.get_char(i) == c {
            proof {
                lemma_find_char_at(s@, c, i as int);
            }
            return s.substring_char(0, i);
        }
        i = i + 1;
    }
    proof {
        lemma_find_char_at(s@, c, n as int);
    }
    s.substring_char(0, n)
}

/// The views of a list of strings.
pub open spec fn views_of(v: Seq<String>) -> Seq<Seq<char>> {
    v.map_values(|x: String| x@)
}

/// Relies on `String::push`: appends one character.
#[verifier::external_body]
pub(crate) fn push_char(s: &mut String, c: char)
    ensures
        final(s)@ == old(s)@.push(c),
{
    s.push(c)
}

/// Renders `n` in decimal.
pub fn u64_to_string(n: u64) -> (r: String)
    ensures
        r@ == dec_str(n as int),
    decreases n,
{
    if n < 10 {
        let mut s = String::new();
        push_char(&mut s, (48 + n as u8) as char);
        proof {
            assert(s@ =~= dec_str(n as int));
        }
        s
    } else {
        let mut s = u64_to_string(n / 10);
        push_char(&mut s, (48 + (n % 10) as u8) as char);
        s
    }
}

} // verus!
