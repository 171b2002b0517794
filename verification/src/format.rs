//! Display helpers: compact number, duration and cost rendering, text
//! truncation, the pricing table, and model-name shortening. Costs are
//! integers in hundred-millionths of a dollar, so the per-million-token
//! rates in hundredths of a dollar stay exact.
use vstd::prelude::*;

use crate::text::{dec_str, str_eq, u64_to_string};

verus! {

/// A character lowered to ASCII lowercase.
pub open spec fn lower_char(c: char) -> char {
    if 65 <= c as int && c as int <= 90 {
        ((c as int + 32) as u8) as char
    } else {
        c
    }
}

/// `s` lowered to ASCII lowercase.
pub open spec fn lower(s: Seq<char>) -> Seq<char> {
    Seq::new(s.len(), |i: int| lower_char(s[i]))
}

/// Lowers `s` to ASCII lowercase.
pub fn to_lower(s: &str) -> (r: String)
    ensures
        r@ == lower(s@),
{
    let n: usize = s.unicode_len();
    let mut acc = String::new();
    let mut i: usize = 0;
    while i < n
        invariant
            n == s@.len(),
            0 <= i <= n,
            acc@ == lower(s@).subrange(0, i as int),
        decreases n - i,
    {
        let c = s.get_char(i);
        let u: u32 = c as u32;
        let m: char = if 65 <= u && u <= 90 {
            ((u + 32) as u8) as char
        } else {
            c
        };
        crate::text::push_char(&mut acc, m);
        proof {
            assert(lower(s@)[i as int] == m);
            assert(acc@ =~= lower(s@).subrange(0, i as int + 1));
        }
        i = i + 1;
    }
    proof {
        assert(lower(s@).subrange(0, n as int) =~= lower(s@));
    }
    acc
}

/// Whether `p` occurs in `s`.
pub open spec fn contains_sub(s: Seq<char>, p: Seq<char>) -> bool {
    exists|i: int| 0 <= i <= s.len() - p.len() && #[trigger] s.subrange(i, i + p.len()) == p
}

/// First index at which `p` occurs in `s`; past the last candidate if
/// it does not.
pub open spec fn find_sub_idx(s: Seq<char>, p: Seq<char>) -> int
    decreases s.len(),
{
    if starts_with_prefix(s, p) {
        0
    } else if s.len() == 0 {
        1
    } else {
        1 + find_sub_idx(s.skip(1), p)
    }
}

/// Whether `s` begins with `p`.
pub open spec fn starts_with_prefix(s: Seq<char>, p: Seq<char>) -> bool {
    s.len() >= p.len() && s.subrange(0, p.len() as int) == p
}

proof fn lemma_find_sub_at(s: Seq<char>, p: Seq<char>, j: int)
    requires
        0 <= j,
        j + p.len() <= s.len(),
        forall|k: int| 0 <= k < j ==> #[trigger] s.subrange(k, k + p.len()) != p,
        s.subrange(j, j + p.len()) == p,
    ensures
        find_sub_idx(s, p) == j,
    decreases j,
{
    if j == 0 {
        assert(starts_with_prefix(s, p));
    } else {
        assert(!starts_with_prefix(s, p)) by {
            assert(s.subrange(0, 0 + p.len() as int) != p);
            assert(s.subrange(0, p.len() as int) == s.subrange(0, 0 + p.len() as int));
        }
        assert(forall|k: int|
            0 <= k < j - 1 ==> #[trigger] s.skip(1).subrange(k, k + p.len()) =~= s.subrange(
                k + 1,
                k + 1 + p.len(),
            ));
        assert(s.skip(1).subrange(j - 1, j - 1 + p.len()) =~= s.subrange(j, j + p.len()));
        lemma_find_sub_at(s.skip(1), p, j - 1);
    }
}

/// Finds the first occurrence of `p` in `s`.
pub fn find_sub(s: &str, p: &str) -> (r: Option<usize>)
    ensures
        match r {
            Some(i) => i + p@.len() <= s@.len() && i as int == find_sub_idx(s@, p@) && s@.subrange(
                i as int,
                i + p@.len(),
            ) == p@,
            None => !contains_sub(s@, p@),
        },
{
    let n: usize = s.unicode_len();
    let m: usize = p.unicode_len();
    if m > n {
        proof {
            assert forall|i: int| 0 <= i <= s@.len() - p@.len() implies #[trigger] s@.subrange(
                i,
                i + p@.len(),
            ) != p@ by {
                assert(s@.len() - p@.len() < 0);
            }
        }
        return None;
    }
    let mut i: usize = 0;
    while i <= n - m
        invariant
            n == s@.len(),
            m == p@.len(),
            m <= n,
            0 <= i <= n - m + 1,
            forall|k: int| 0 <= k < i ==> #[trigger] s@.subrange(k, k + p@.len()) != p@,
        decreases n - m + 1 - i,
    {
        let w = s.substring_char(i, i + m);
        if str_eq(w, p) {
            proof {
                lemma_find_sub_at(s@, p@, i as int);
            }
            return Some(i);
        }
        proof {
            if m == 0 {
                assert(w@ =~= p@);
            }
        }
        i = i + 1;
    }
    proof {
        assert forall|k: int| 0 <= k <= s@.len() - p@.len() implies #[trigger] s@.subrange(
            k,
            k + p@.len(),
        ) != p@ by {
            assert(k < i);
        }
    }
    None
}

/// Decides `contains_sub`.
pub fn contains_str(s: &str, p: &str) -> (r: bool)
    ensures
        r == contains_sub(s@, p@),
{
    match find_sub(s, p) {
        Some(_) => true,
        None => false,
    }
}

/// The per-million-token price of a model family, in hundredths of a
/// dollar: input, output and cache-read rates. Families are matched
/// on the lowercased name; an unknown family prices as the default.
pub open spec fn pricing(model: Seq<char>) -> (u64, u64, u64) {
    let m = lower(model);
    if contains_sub(m, "opus"@) {
        (1500u64, 7500u64, 150u64)
    } else if contains_sub(m, "haiku"@) {
        (80u64, 400u64, 8u64)
    } else {
        (300u64, 1500u64, 30u64)
    }
}

/// The exact cost of a usage in hundred-millionths of a dollar: input
/// tokens beyond the cache-read count at the input rate, output at the
/// output rate, cache reads at the cache rate.
pub open spec fn cost_units(model: Seq<char>, input: u64, output: u64, cache_read: u64) -> int {
    let p = pricing(model);
    (if input > cache_read {
        input - cache_read
    } else {
        0
    }) * p.0 + output * p.1 + cache_read * p.2
}

/// Estimates a usage's cost, in hundred-millionths of a dollar,
/// saturating at `u64::MAX`.
pub fn estimate_cost(model: &str, input_tokens: u64, output_tokens: u64, cache_read_tokens: u64) -> (r: u64)
    ensures
        r as int == (if cost_units(model@, input_tokens, output_tokens, cache_read_tokens)
            > u64::MAX {
            u64::MAX as int
        } else {
            cost_units(model@, input_tokens, output_tokens, cache_read_tokens)
        }),
{
    let m = to_lower(model);
    let nc: u64 = if input_tokens > cache_read_tokens {
        input_tokens - cache_read_tokens
    } else {
        0
    };
    let total: u128;
    if contains_str(m.as_str(), "opus") {
        total = nc as u128 * 1500 + output_tokens as u128 * 7500 + cache_read_tokens as u128 * 150;
    } else if contains_str(m.as_str(), "haiku") {
        total = nc as u128 * 80 + output_tokens as u128 * 400 + cache_read_tokens as u128 * 8;
    } else {
        total = nc as u128 * 300 + output_tokens as u128 * 1500 + cache_read_tokens as u128 * 30;
    }
    if total > u64::MAX as u128 {
        u64::MAX
    } else {
        total as u64
    }
}

/// Two-digit rendering of a number below one hundred.
pub open spec fn pad2(n: int) -> Seq<char> {
    if n < 10 {
        seq!['0'] + dec_str(n)
    } else {
        dec_str(n)
    }
}

/// What `format_cost` renders: costs below one cent collapse to a
/// marker, anything else rounds to whole cents, half a cent up.
pub open spec fn format_cost_spec(cost: u64) -> Seq<char> {
    if cost < 1_000_000 {
        "<$0.01"@
    } else {
        let cents = (cost + 500_000) / 1_000_000;
        seq!['$'] + dec_str(cents / 100) + seq!['.'] + pad2(cents % 100)
    }
}

/// Renders a cost in hundred-millionths of a dollar as dollars and
/// cents.
pub fn format_cost(cost: u64) -> (r: String)
    ensures
        r@ == format_cost_spec(cost),
{
    if cost < 1_000_000 {
        String::from_str("<$0.01")
    } else {
        let cents: u64 = (cost / 1_000_000) + (if cost % 1_000_000 >= 500_000 {
            1
        } else {
            0
        });
        proof {
            assert(cents == ((cost + 500_000) / 1_000_000));
        }
        let mut acc = String::from_str("$");
        proof {
            reveal_strlit("$");
            assert(acc@ =~= seq!['$']);
        }
        let d = u64_to_string(cents / 100);
        acc.append(d.as_str());
        crate::text::push_char(&mut acc, '.');
        let c2: u64 = cents % 100;
        if c2 < 10 {
            crate::text::push_char(&mut acc, '0');
        }
        let cd = u64_to_string(c2);
        acc.append(cd.as_str());
        proof {
            if c2 < 10 {
                assert(acc@ =~= format_cost_spec(cost));
            } else {
                assert(acc@ =~= format_cost_spec(cost));
            }
        }
        acc
    }
}

/// What `format_number` renders: millions and thousands to one
/// decimal place (rounded, half up), smaller values in full.
pub open spec fn format_number_spec(n: u64) -> Seq<char> {
    if n >= 1_000_000 {
        let x = (n + 50_000) / 100_000;
        dec_str(x / 10) + seq!['.'] + dec_str(x % 10) + seq!['M']
    } else if n >= 1_000 {
        let x = (n + 50) / 100;
        dec_str(x / 10) + seq!['.'] + dec_str(x % 10) + seq!['K']
    } else {
        dec_str(n as int)
    }
}

/// Renders a count compactly.
pub fn format_number(n: u64) -> (r: String)
    ensures
        r@ == format_number_spec(n),
{
    if n >= 1_000_000 {
        let x: u64 = n / 100_000 + (if n % 100_000 >= 50_000 {
            1
        } else {
            0
        });
        proof {
            assert(x == (n + 50_000) / 100_000);
        }
        let mut acc = u64_to_string(x / 10);
        crate::text::push_char(&mut acc, '.');
        let d = u64_to_string(x % 10);
        acc.append(d.as_str());
        crate::text::push_char(&mut acc, 'M');
        proof {
            assert(acc@ =~= format_number_spec(n));
        }
        acc
    } else if n >= 1_000 {
        let x: u64 = n / 100 + (if n % 100 >= 50 {
            1
        } else {
            0
        });
        proof {
            assert(x == (n + 50) / 100);
        }
        let mut acc = u64_to_string(x / 10);
        crate::text::push_char(&mut acc, '.');
        let d = u64_to_string(x % 10);
        acc.append(d.as_str());
        crate::text::push_char(&mut acc, 'K');
        proof {
            assert(acc@ =~= format_number_spec(n));
        }
        acc
    } else {
        u64_to_string(n)
    }
}

/// What `format_duration` renders: a millisecond count bucketed into
/// milliseconds, seconds, minutes-and-seconds, or hours-and-minutes.
pub open spec fn format_duration_spec(ms: u64) -> Seq<char> {
    if ms < 1000 {
        dec_str(ms as int) + "ms"@
    } else if ms / 1000 < 60 {
        dec_str((ms / 1000) as int) + "s"@
    } else if ms / 60000 < 60 {
        dec_str((ms / 60000) as int) + "m "@ + dec_str(((ms / 1000) % 60) as int) + "s"@
    } else {
        dec_str((ms / 3600000) as int) + "h "@ + dec_str(((ms / 60000) % 60) as int) + "m"@
    }
}

/// Renders a duration in milliseconds.
pub fn format_duration(ms: u64) -> (r: String)
    ensures
        r@ == format_duration_spec(ms),
{
    if ms < 1000 {
        let mut acc = u64_to_string(ms);
        acc.append("ms");
        acc
    } else {
        let secs: u64 = ms / 1000;
        if secs < 60 {
            let mut acc = u64_to_string(secs);
            acc.append("s");
            acc
        } else {
            let mins: u64 = secs / 60;
            proof {
                assert(mins == ms / 60000);
            }
            if mins < 60 {
                let mut acc = u64_to_string(mins);
                acc.append("m ");
                let d = u64_to_string(secs % 60);
                acc.append(d.as_str());
                acc.append("s");
                acc
            } else {
                let hours: u64 = mins / 60;
                proof {
                    assert(hours == ms / 3600000);
                }
                let mut acc = u64_to_string(hours);
                acc.append("h ");
                let d = u64_to_string(mins % 60);
                acc.append(d.as_str());
                acc.append("m");
                acc
            }
        }
    }
}

/// What `truncate` renders: text over the cap keeps its first `max`
/// characters and gains an ellipsis.
pub open spec fn truncate_spec(s: Seq<char>, max: int) -> Seq<char> {
    if s.len() > max {
        s.subrange(0, max) + seq!['.', '.', '.']
    } else {
        s
    }
}

/// Truncates display text to at most `max` characters.
pub fn truncate(s: &str, max: usize) -> (r: String)
    ensures
        r@ == truncate_spec(s@, max as int),
{
    let n: usize = s.unicode_len();
    if n > max {
        let mut acc = String::from_str(s.substring_char(0, max));
        crate::text::push_char(&mut acc, '.');
        crate::text::push_char(&mut acc, '.');
        crate::text::push_char(&mut acc, '.');
        proof {
            assert(acc@ =~= truncate_spec(s@, max as int));
        }
        acc
    } else {
        String::from_str(s)
    }
}

/// The value of a digit string.
pub open spec fn digits_val(s: Seq<char>) -> int
    decreases s.len(),
{
    if s.len() == 0 {
        0
    } else {
        digits_val(s.drop_last()) * 10 + (s.last() as int - 48)
    }
}

/// Whether every character is a decimal digit.
pub open spec fn all_digits(s: Seq<char>) -> bool {
    forall|i: int| 0 <= i < s.len() ==> 48 <= #[trigger] s[i] as int <= 57
}

/// Whether `s` is a numeral a 32-bit parse accepts: non-empty, all
/// digits, and in range.
pub open spec fn is_u32_numeral(s: Seq<char>) -> bool {
    s.len() > 0 && all_digits(s) && digits_val(s) <= u32::MAX
}

proof fn lemma_digits_val_bound(s: Seq<char>)
    requires
        all_digits(s),
    ensures
        digits_val(s) >= 0,
    decreases s.len(),
{
    if s.len() > 0 {
        assert(all_digits(s.drop_last())) by {
            assert(forall|i: int|
                0 <= i < s.len() - 1 ==> #[trigger] s.drop_last()[i] == s[i]);
        }
        lemma_digits_val_bound(s.drop_last());
    }
}

/// Decides `is_u32_numeral`.
pub fn parses_as_u32(s: &str) -> (r: bool)
    ensures
        r == is_u32_numeral(s@),
{
    let n: usize = s.unicode_len();
    if n == 0 {
        return false;
    }
    let mut val: u64 = 0;
    let mut i: usize = 0;
    proof {
        assert(s@.subrange(0, 0) =~= Seq::<char>::empty());
    }
    while i < n
        invariant
            n == s@.len(),
            0 <= i <= n,
            all_digits(s@.subrange(0, i as int)),
            val == digits_val(s@.subrange(0, i as int)),
            val <= u32::MAX,
        decreases n - i,
    {
        let c = s.get_char(i);
        let u: u32 = c as u32;
        if !(48 <= u && u <= 57) {
            return false;
        }
        let d: u64 = (u - 48) as u64;
        let next: u64 = val * 10 + d;
        proof {
            assert(s@.subrange(0, i as int + 1).drop_last() =~= s@.subrange(0, i as int));
            assert(s@.subrange(0, i as int + 1).last() == s@[i as int]);
        }
        if next > 0xffff_ffff {
            proof {
                assert(all_digits(s@.subrange(0, i as int + 1))) by {
                    assert(forall|k: int|
                        0 <= k < i as int + 1 ==> #[trigger] s@.subrange(0, i as int + 1)[k]
                            == s@[k]);
                }
                assert(next == digits_val(s@.subrange(0, i as int + 1)));
                lemma_digits_prefix_monotone(s@, i as int + 1);
            }
            return false;
        }
        val = next;
        i = i + 1;
    }
    proof {
        assert(s@.subrange(0, n as int) =~= s@);
    }
    true
}

/// Whether a character separates version parts.
pub open spec fn is_sep(c: char) -> bool {
    c == '-' || c == '_'
}

/// Splits `s` on separators, dropping empty pieces; `parts` and `cur`
/// carry the pieces finished and the piece being read.
pub open spec fn split_acc(parts: Seq<Seq<char>>, cur: Seq<char>, s: Seq<char>) -> Seq<Seq<char>>
    decreases s.len(),
{
    if s.len() == 0 {
        if cur.len() > 0 {
            parts.push(cur)
        } else {
            parts
        }
    } else if is_sep(s[0]) {
        split_acc(
            if cur.len() > 0 {
                parts.push(cur)
            } else {
                parts
            },
            Seq::<char>::empty(),
            s.skip(1),
        )
    } else {
        split_acc(parts, cur.push(s[0]), s.skip(1))
    }
}

/// The non-empty pieces of `s` split on dashes and underscores.
pub open spec fn split_parts(s: Seq<char>) -> Seq<Seq<char>> {
    split_acc(Seq::<Seq<char>>::empty(), Seq::<char>::empty(), s)
}

/// Splits `s` on dashes and underscores, dropping empty pieces.
pub fn split_version_parts(s: &str) -> (r: Vec<String>)
    ensures
        crate::text::views_of(r@) == split_parts(s@),
{
    let n: usize = s.unicode_len();
    let mut parts: Vec<String> = Vec::new();
    let mut cur = String::new();
    let mut i: usize = 0;
    proof {
        assert(s@.skip(0) =~= s@);
        assert(crate::text::views_of(parts@) =~= Seq::<Seq<char>>::empty());
    }
    while i < n
        invariant
            n == s@.len(),
            0 <= i <= n,
            split_acc(crate::text::views_of(parts@), cur@, s@.skip(i as int)) == split_parts(
                s@,
            ),
        decreases n - i,
    {
        proof {
            assert(s@.skip(i as int)[0] == s@[i as int]);
            assert(s@.skip(i as int).skip(1) =~= s@.skip(i as int + 1));
        }
        let ghost pv: Seq<Seq<char>> = crate::text::views_of(parts@);
        let ghost cv: Seq<char> = cur@;
        let c = s.get_char(i);
        if c == '-' || c == '_' {
            proof {
                if cv.len() == 0 {
                    assert(cv =~= Seq::<char>::empty());
                }
                assert(split_acc(pv, cv, s@.skip(i as int)) == split_acc(
                    if cv.len() > 0 {
                        pv.push(cv)
                    } else {
                        pv
                    },
                    Seq::<char>::empty(),
                    s@.skip(i as int + 1),
                ));
            }
            if !cur.as_str().is_empty() {
                parts.push(cur);
                cur = String::new();
                proof {
                    assert(crate::text::views_of(parts@) =~= pv.push(cv));
                }
            }
        } else {
            crate::text::push_char(&mut cur, c);
            proof {
                assert(split_acc(pv, cv, s@.skip(i as int)) == split_acc(
                    pv,
                    cv.push(s@[i as int]),
                    s@.skip(i as int + 1),
                ));
            }
        }
        i = i + 1;
    }
    proof {
        assert(s@.skip(n as int) =~= Seq::<char>::empty());
    }
    if !cur.as_str().is_empty() {
        let ghost pv: Seq<Seq<char>> = crate::text::views_of(parts@);
        parts.push(cur);
        proof {
            assert(crate::text::views_of(parts@) =~= pv.push(parts@.last()@));
        }
    }
    parts
}

/// What one family renders to: the capitalized family name, followed
/// by up to two numeric version pieces found after it — a long second
/// piece reads as a date stamp and is dropped.
pub open spec fn family_fmt(m: Seq<char>, idx: int, fam: Seq<char>, name: Seq<char>) -> Seq<char> {
    let parts = split_parts(m.skip(idx + fam.len()));
    if parts.len() == 0 {
        name
    } else if is_u32_numeral(parts[0]) {
        if parts.len() >= 2 && is_u32_numeral(parts[1]) {
            if parts[1].len() >= 8 {
                name + seq![' '] + parts[0]
            } else {
                name + seq![' '] + parts[0] + seq!['.'] + parts[1]
            }
        } else {
            name + seq![' '] + parts[0]
        }
    } else {
        name
    }
}

/// What `short_model` renders: the first family name found in the
/// lowercased model, with its version, or nothing.
pub open spec fn short_model_spec(model: Seq<char>) -> Seq<char> {
    if model.len() == 0 {
        Seq::<char>::empty()
    } else {
        let m = lower(model);
        if contains_sub(m, "opus"@) {
            family_fmt(m, find_sub_idx(m, "opus"@), "opus"@, "Opus"@)
        } else if contains_sub(m, "sonnet"@) {
            family_fmt(m, find_sub_idx(m, "sonnet"@), "sonnet"@, "Sonnet"@)
        } else if contains_sub(m, "haiku"@) {
            family_fmt(m, find_sub_idx(m, "haiku"@), "haiku"@, "Haiku"@)
        } else {
            Seq::<char>::empty()
        }
    }
}

/// Renders one matched family with its version pieces.
fn family_fmt_exec(m: &str, idx: usize, fam_len: usize, name: &str) -> (r: String)
    requires
        idx + fam_len <= m@.len(),
    ensures
        r@ == family_fmt(m@, idx as int, m@.subrange(idx as int, idx + fam_len), name@),
{
    let n: usize = m.unicode_len();
    let rest = m.substring_char(idx + fam_len, n);
    proof {
        assert(rest@ =~= m@.skip(idx + fam_len as int));
        assert(m@.subrange(idx as int, idx + fam_len).len() == fam_len as int);
    }
    let parts = split_version_parts(rest);
    let ghost pv: Seq<Seq<char>> = crate::text::views_of(parts@);
    if parts.len() == 0 {
        return String::from_str(name);
    }
    proof {
        assert(pv[0] == parts@[0]@);
    }
    if parses_as_u32(parts[0].as_str()) {
        let two = if parts.len() >= 2 {
            proof {
                assert(pv[1] == parts@[1]@);
            }
            parses_as_u32(parts[1].as_str())
        } else {
            false
        };
        if two && parts[1].as_str().unicode_len() >= 8 {
            let mut acc = String::from_str(name);
            crate::text::push_char(&mut acc, ' ');
            acc.append(parts[0].as_str());
            proof {
                assert(acc@ =~= name@ + seq![' '] + pv[0]);
            }
            acc
        } else if two {
            let mut acc = String::from_str(name);
            crate::text::push_char(&mut acc, ' ');
            acc.append(parts[0].as_str());
            crate::text::push_char(&mut acc, '.');
            acc.append(parts[1].as_str());
            proof {
                assert(acc@ =~= name@ + seq![' '] + pv[0] + seq!['.'] + pv[1]);
            }
            acc
        } else {
            let mut acc = String::from_str(name);
            crate::text::push_char(&mut acc, ' ');
            acc.append(parts[0].as_str());
            proof {
                assert(acc@ =~= name@ + seq![' '] + pv[0]);
            }
            acc
        }
    } else {
        String::from_str(name)
    }
}

/// What a project's source set labels as: both, one, or the default.
pub open spec fn source_label_spec(sources: Seq<crate::models::DataSource>) -> Seq<char> {
    if crate::scanner::has_source(sources, crate::models::DataSource::Claude)
        && crate::scanner::has_source(sources, crate::models::DataSource::Cursor) {
        "Both"@
    } else if crate::scanner::has_source(sources, crate::models::DataSource::Cursor) {
        "Cursor"@
    } else {
        "Code"@
    }
}

/// Labels a project's source set for the displays.
pub fn source_label_str(sources: &Vec<crate::models::DataSource>) -> (r: String)
    ensures
        r@ == source_label_spec(sources@),
{
    let has_claude = contains_source_pub(sources, crate::models::DataSource::Claude);
    let has_cursor = contains_source_pub(sources, crate::models::DataSource::Cursor);
    if has_claude && has_cursor {
        String::from_str("Both")
    } else if has_cursor {
        String::from_str("Cursor")
    } else {
        String::from_str("Code")
    }
}

/// Decides `has_source` for the label.
fn contains_source_pub(s: &Vec<crate::models::DataSource>, src: crate::models::DataSource) -> (r: bool)
    ensures
        r == crate::scanner::has_source(s@, src),
{
    let n: usize = s.len();
    let mut i: usize = 0;
    while i < n
        invariant
            n == s@.len(),
            0 <= i <= n,
            forall|k: int| 0 <= k < i ==> #[trigger] s@[k] != src,
        decreases n - i,
    {
        if s[i] == src {
            return true;
        }
        i = i + 1;
    }
    false
}

/// Shortens a model name to its family and version, as the displays
/// show it.
pub fn short_model(model: &str) -> (r: String)
    ensures
        r@ == short_model_spec(model@),
{
    if model.is_empty() {
        return String::new();
    }
    let m = to_lower(model);
    match find_sub(m.as_str(), "opus") {
        Some(idx) => {
            proof {
                reveal_strlit("opus");
            }
            return family_fmt_exec(m.as_str(), idx, 4, "Opus");
        },
        None => {},
    }
    match find_sub(m.as_str(), "sonnet") {
        Some(idx) => {
            proof {
                reveal_strlit("sonnet");
            }
            return family_fmt_exec(m.as_str(), idx, 6, "Sonnet");
        },
        None => {},
    }
    match find_sub(m.as_str(), "haiku") {
        Some(idx) => {
            proof {
                reveal_strlit("haiku");
            }
            return family_fmt_exec(m.as_str(), idx, 5, "Haiku");
        },
        None => {},
    }
    String::new()
}

proof fn lemma_digits_prefix_monotone(s: Seq<char>, j: int)
    requires
        0 < j <= s.len(),
        all_digits(s.subrange(0, j)),
        digits_val(s.subrange(0, j)) > u32::MAX,
    ensures
        all_digits(s) ==> digits_val(s) > u32::MAX,
    decreases s.len() - j,
{
    if all_digits(s) {
        if j < s.len() {
            assert(s.subrange(0, j + 1).drop_last() =~= s.subrange(0, j));
            assert(s.subrange(0, j + 1).last() == s[j]);
            assert(all_digits(s.subrange(0, j + 1))) by {
                assert(forall|i: int|
                    0 <= i < j + 1 ==> #[trigger] s.subrange(0, j + 1)[i] == s[i]);
            }
            assert(digits_val(s.subrange(0, j + 1)) == digits_val(s.subrange(0, j)) * 10 + (s[j]
                as int - 48));
            assert(48 <= s[j] as int);
            lemma_digits_prefix_monotone(s, j + 1);
        } else {
            assert(s.subrange(0, j) =~= s);
        }
    }
}

} // verus!
