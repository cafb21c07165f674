//! Message templates: finding placeholders and filling them in.
//!
//! A placeholder is `{`, one or more characters other than `}`, then `}`.
//! Placeholders are found left to right without overlap; where a `{` has no
//! such completion the search goes on at the next character. A numeric
//! placeholder is `{`, ASCII digits, `}`.

use vstd::prelude::*;
use crate::json::{value_text, value_to_chars, Value};
use crate::maps::{assoc_get, ArgMap, NamedMap};
use crate::text::{append_chars, chars_to_string, decimal, digit_char, str_to_chars};

verus! {

/// Position of the first `}` at or after `k`, or -1 if there is none.
pub open spec fn first_close(t: Seq<char>, k: int) -> int
    decreases t.len() - k,
{
    if k >= t.len() {
        -1
    } else if t[k] == '}' {
        k
    } else {
        first_close(t, k + 1)
    }
}

/// `first_close` finds the first `}` from `k` on, or reports that there is
/// none.
pub proof fn lemma_first_close(t: Seq<char>, k: int)
    requires
        0 <= k,
    ensures
        first_close(t, k) == -1 ==> forall|m: int| k <= m < t.len() ==> t[m] != '}',
        first_close(t, k) != -1 ==> {
            &&& k <= first_close(t, k) < t.len()
            &&& t[first_close(t, k)] == '}'
            &&& forall|m: int| k <= m < first_close(t, k) ==> t[m] != '}'
        },
    decreases t.len() - k,
{
    if k < t.len() && t[k] != '}' {
        lemma_first_close(t, k + 1);
    }
}

/// The placeholders of `t` from position `from` on, each as the positions of
/// its `{` and its `}`.
pub open spec fn placeholders_from(t: Seq<char>, from: int) -> Seq<(int, int)>
    decreases t.len() - from,
{
    if from < 0 || from >= t.len() {
        seq![]
    } else if t[from] == '{' && first_close(t, from + 1) > from + 1 {
        let j = first_close(t, from + 1);
        proof {
            lemma_first_close(t, from + 1);
        }
        seq![(from, j)] + placeholders_from(t, j + 1)
    } else {
        placeholders_from(t, from + 1)
    }
}

/// The placeholders of `t`.
pub open spec fn placeholders(t: Seq<char>) -> Seq<(int, int)> {
    placeholders_from(t, 0)
}

/// The names inside the placeholders of `t`, in order.
pub open spec fn placeholder_names(t: Seq<char>) -> Seq<Seq<char>> {
    placeholders(t).map_values(|m: (int, int)| t.subrange(m.0 + 1, m.1))
}

/// Positions in an executable list of placeholder positions.
pub open spec fn spans(v: Seq<(usize, usize)>) -> Seq<(int, int)> {
    v.map_values(|m: (usize, usize)| (m.0 as int, m.1 as int))
}

/// The placeholders of a character sequence.
pub fn find_placeholders(t: &Vec<char>) -> (ms: Vec<(usize, usize)>)
    ensures
        spans(ms@) == placeholders(t@),
{
    let n = t.len();
    let mut ms: Vec<(usize, usize)> = Vec::new();
    let mut i: usize = 0;
    assert(spans(ms@) =~= Seq::<(int, int)>::empty());
    while i < n
        invariant
            n == t@.len(),
            i <= n,
            placeholders(t@) == spans(ms@) + placeholders_from(t@, i as int),
        decreases n - i,
    {
        let ghost before = spans(ms@);
        if t[i] == '{' {
            let mut k: usize = i + 1;
            while k < n && t[k] != '}'
                invariant
                    i + 1 <= k <= n,
                    n == t@.len(),
                    forall|m: int| i + 1 <= m < k ==> t@[m] != '}',
                decreases n - k,
            {
                k = k + 1;
            }
            proof {
                lemma_first_close(t@, i + 1);
                if k < n {
                    assert(first_close(t@, i + 1) == k as int) by {
                        let c = first_close(t@, i + 1);
                        if c == -1 {
                            assert(t@[k as int] != '}');
                        } else if c < k {
                            assert(t@[c] != '}');
                        } else if c > k {
                            assert(t@[k as int] != '}');
                        }
                    }
                } else {
                    assert(first_close(t@, i + 1) == -1) by {
                        let c = first_close(t@, i + 1);
                        if c != -1 {
                            assert(t@[c] != '}');
                        }
                    }
                }
            }
            if k < n && k > i + 1 {
                ms.push((i, k));
                assert(spans(ms@) =~= before.push((i as int, k as int)));
                assert(placeholders_from(t@, i as int) == seq![(i as int, k as int)]
                    + placeholders_from(t@, k + 1));
                assert(spans(ms@) + placeholders_from(t@, k + 1) =~= before + placeholders_from(
                    t@,
                    i as int,
                ));
                i = k + 1;
            } else {
                i = i + 1;
            }
        } else {
            i = i + 1;
        }
    }
    assert(placeholders_from(t@, n as int) =~= Seq::<(int, int)>::empty());
    assert(spans(ms@) + Seq::<(int, int)>::empty() =~= spans(ms@));
    ms
}

/// The characters of `t` from `from` up to (not including) `to`.
pub fn copy_range(t: &Vec<char>, from: usize, to: usize) -> (out: Vec<char>)
    requires
        from <= to <= t@.len(),
    ensures
        out@ == t@.subrange(from as int, to as int),
{
    let mut out: Vec<char> = Vec::new();
    let mut k = from;
    while k < to
        invariant
            from <= k <= to,
            to <= t@.len(),
            out@ == t@.subrange(from as int, k as int),
        decreases to - k,
    {
        out.push(t[k]);
        k = k + 1;
        assert(out@ =~= t@.subrange(from as int, k as int));
    }
    out
}

/// Whether `c` is an ASCII digit.
pub open spec fn is_digit(c: char) -> bool {
    '0' <= c && c <= '9'
}

/// Whether every character of `s` is an ASCII digit.
pub open spec fn all_digits(s: Seq<char>) -> bool {
    forall|i: int| 0 <= i < s.len() ==> is_digit(#[trigger] s[i])
}

/// The number a string of ASCII digits denotes.
pub open spec fn digits_value(s: Seq<char>) -> int
    decreases s.len(),
{
    if s.len() == 0 {
        0
    } else {
        digits_value(s.drop_last()) * 10 + (s.last() as int - '0' as int)
    }
}

/// A longer digit string never denotes a smaller number.
pub proof fn lemma_digits_value_grows(s: Seq<char>, m: int)
    requires
        all_digits(s),
        0 <= m <= s.len(),
    ensures
        digits_value(s.take(m)) <= digits_value(s),
        0 <= digits_value(s),
    decreases s.len(),
{
    if s.len() > 0 {
        assert(all_digits(s.drop_last()));
        if m == s.len() {
            assert(s.take(m) =~= s);
            lemma_digits_value_grows(s.drop_last(), 0);
        } else {
            assert(s.take(m) =~= s.drop_last().take(m));
            lemma_digits_value_grows(s.drop_last(), m);
        }
    }
}

proof fn lemma_digit_char_value(d: nat)
    requires
        d < 10,
    ensures
        is_digit(digit_char(d)),
        digit_char(d) as int - '0' as int == d,
{
}

/// The decimal text of a number reads back as that number.
pub proof fn lemma_decimal_reads_back(n: nat)
    ensures
        decimal(n).len() > 0,
        all_digits(decimal(n)),
        digits_value(decimal(n)) == n,
    decreases n,
{
    lemma_digit_char_value(n % 10);
    let d = decimal(n);
    if n < 10 {
        assert(d.drop_last() =~= Seq::<char>::empty());
        assert(digits_value(d.drop_last()) == 0);
        assert(all_digits(d));
    } else {
        lemma_decimal_reads_back(n / 10);
        assert(d.drop_last() =~= decimal(n / 10));
        assert(d.last() == digit_char(n % 10));
        assert(digits_value(d) == digits_value(decimal(n / 10)) * 10 + (d.last() as int - '0' as int));
        assert(all_digits(d)) by {
            assert forall|i: int| 0 <= i < d.len() implies is_digit(#[trigger] d[i]) by {
                if i < d.len() - 1 {
                    assert(d[i] == decimal(n / 10)[i]);
                }
            }
        }
    }
}

/// What Rust's `str::parse::<usize>` gives: an optional `+` (not alone),
/// then one or more ASCII digits whose value fits in a `usize`.
pub open spec fn parse_index(s: Seq<char>) -> Option<usize> {
    let body = if s.len() > 1 && s[0] == '+' {
        s.skip(1)
    } else {
        s
    };
    if body.len() > 0 && all_digits(body) && digits_value(body) <= usize::MAX {
        Some(digits_value(body) as usize)
    } else {
        None
    }
}

/// `parse::<usize>` of the characters `from .. to` of `t`.
pub fn parse_index_at(t: &Vec<char>, from: usize, to: usize) -> (r: Option<usize>)
    requires
        from <= to <= t@.len(),
    ensures
        r == parse_index(t@.subrange(from as int, to as int)),
{
    let ghost s = t@.subrange(from as int, to as int);
    let mut start = from;
    if to - from > 1 && t[from] == '+' {
        start = from + 1;
    }
    let ghost body = t@.subrange(start as int, to as int);
    assert(body =~= (if s.len() > 1 && s[0] == '+' {
        s.skip(1)
    } else {
        s
    }));
    if start >= to {
        return None;
    }
    let mut acc: usize = 0;
    let mut k = start;
    assert(t@.subrange(start as int, start as int) =~= Seq::<char>::empty());
    while k < to
        invariant
            from <= start <= k <= to,
            to <= t@.len(),
            s == t@.subrange(from as int, to as int),
            body == t@.subrange(start as int, to as int),
            body == (if s.len() > 1 && s[0] == '+' {
                s.skip(1)
            } else {
                s
            }),
            all_digits(t@.subrange(start as int, k as int)),
            acc as int == digits_value(t@.subrange(start as int, k as int)),
        decreases to - k,
    {
        let c = t[k];
        if !('0' <= c && c <= '9') {
            assert(body[k - start] == c);
            return None;
        }
        let d = (c as u32 - '0' as u32) as usize;
        let ghost prefix = t@.subrange(start as int, k + 1);
        assert(prefix.drop_last() =~= t@.subrange(start as int, k as int));
        assert(all_digits(prefix));
        if acc > (usize::MAX - d) / 10 {
            assert(acc * 10 + d > usize::MAX) by (nonlinear_arith)
                requires
                    acc > (usize::MAX - d) / 10,
                    d <= 9,
            ;
            proof {
                if all_digits(body) {
                    assert(body.take(k + 1 - start) =~= prefix);
                    lemma_digits_value_grows(body, k + 1 - start);
                }
            }
            return None;
        }
        assert(acc * 10 + d <= usize::MAX) by (nonlinear_arith)
            requires
                acc <= (usize::MAX - d) / 10,
                d <= 9,
        ;
        acc = acc * 10 + d;
        k = k + 1;
    }
    Some(acc)
}

/// Position after the ASCII digits that start at `k`.
pub open spec fn digits_end(t: Seq<char>, k: int) -> int
    decreases t.len() - k,
{
    if 0 <= k < t.len() && is_digit(t[k]) {
        digits_end(t, k + 1)
    } else {
        k
    }
}

/// `digits_end` stops at the first non-digit.
pub proof fn lemma_digits_end(t: Seq<char>, k: int)
    requires
        0 <= k <= t.len(),
    ensures
        k <= digits_end(t, k) <= t.len(),
        forall|m: int| k <= m < digits_end(t, k) ==> is_digit(#[trigger] t[m]),
        digits_end(t, k) < t.len() ==> !is_digit(t[digits_end(t, k)]),
    decreases t.len() - k,
{
    if k < t.len() && is_digit(t[k]) {
        lemma_digits_end(t, k + 1);
    }
}

/// The numeric placeholders of `t` from position `from` on.
pub open spec fn numeric_placeholders_from(t: Seq<char>, from: int) -> Seq<(int, int)>
    decreases t.len() - from,
{
    if from < 0 || from >= t.len() {
        seq![]
    } else {
        let e = digits_end(t, from + 1);
        if t[from] == '{' && e > from + 1 && e < t.len() && t[e] == '}' {
            seq![(from, e)] + numeric_placeholders_from(t, e + 1)
        } else {
            numeric_placeholders_from(t, from + 1)
        }
    }
}

/// The numeric placeholders of `t`.
pub open spec fn numeric_placeholders(t: Seq<char>) -> Seq<(int, int)> {
    numeric_placeholders_from(t, 0)
}

/// Every numeric placeholder lies inside the text with digits between its
/// braces.
pub proof fn lemma_numeric_bounds(t: Seq<char>, from: int, k: int)
    requires
        0 <= from,
        0 <= k < numeric_placeholders_from(t, from).len(),
    ensures
        from <= numeric_placeholders_from(t, from)[k].0,
        numeric_placeholders_from(t, from)[k].0 + 1 < numeric_placeholders_from(t, from)[k].1
            < t.len(),
    decreases t.len() - from,
{
    if from < t.len() {
        let e = digits_end(t, from + 1);
        if t[from] == '{' && e > from + 1 && e < t.len() && t[e] == '}' {
            if k > 0 {
                lemma_numeric_bounds(t, e + 1, k - 1);
            }
        } else {
            lemma_numeric_bounds(t, from + 1, k);
        }
    }
}

/// The numeric placeholders of a character sequence.
pub fn find_numeric_placeholders(t: &Vec<char>) -> (ms: Vec<(usize, usize)>)
    ensures
        spans(ms@) == numeric_placeholders(t@),
{
    let n = t.len();
    let mut ms: Vec<(usize, usize)> = Vec::new();
    let mut i: usize = 0;
    assert(spans(ms@) =~= Seq::<(int, int)>::empty());
    while i < n
        invariant
            n == t@.len(),
            i <= n,
            numeric_placeholders(t@) == spans(ms@) + numeric_placeholders_from(t@, i as int),
        decreases n - i,
    {
        let ghost before = spans(ms@);
        let mut k: usize = i + 1;
        while k < n && '0' <= t[k] && t[k] <= '9'
            invariant
                i + 1 <= k <= n,
                n == t@.len(),
                digits_end(t@, i + 1) == digits_end(t@, k as int),
            decreases n - k,
        {
            k = k + 1;
        }
        assert(digits_end(t@, k as int) == k);
        if t[i] == '{' && k > i + 1 && k < n && t[k] == '}' {
            ms.push((i, k));
            assert(spans(ms@) =~= before.push((i as int, k as int)));
            assert(spans(ms@) + numeric_placeholders_from(t@, k + 1) =~= before
                + numeric_placeholders_from(t@, i as int));
            i = k + 1;
        } else {
            i = i + 1;
        }
    }
    assert(numeric_placeholders_from(t@, n as int) =~= Seq::<(int, int)>::empty());
    assert(spans(ms@) + Seq::<(int, int)>::empty() =~= spans(ms@));
    ms
}

/// `s` with every occurrence of the non-empty `pat` replaced by `rep`,
/// scanning left to right without overlap (as `str::replace` does).
pub open spec fn replace_all(s: Seq<char>, pat: Seq<char>, rep: Seq<char>) -> Seq<char>
    decreases s.len(),
{
    if pat.len() == 0 || s.len() < pat.len() {
        s
    } else if s.take(pat.len() as int) == pat {
        rep + replace_all(s.skip(pat.len() as int), pat, rep)
    } else {
        seq![s[0]] + replace_all(s.skip(1), pat, rep)
    }
}

/// Whether `pat` occurs in `s` at position `i`.
fn occurs_at(s: &Vec<char>, i: usize, pat: &Vec<char>) -> (b: bool)
    requires
        i <= s@.len(),
    ensures
        b == (s@.len() - i >= pat@.len() && s@.skip(i as int).take(pat@.len() as int) == pat@),
{
    let slen = s.len();
    if slen - i < pat.len() {
        return false;
    }
    let mut k: usize = 0;
    while k < pat.len()
        invariant
            k <= pat@.len(),
            slen == s@.len(),
            i + pat@.len() <= slen,
            forall|m: int| 0 <= m < k ==> s@[i + m] == pat@[m],
        decreases pat.len() - k,
    {
        if s[i + k] != pat[k] {
            assert(s@.skip(i as int).take(pat@.len() as int)[k as int] != pat@[k as int]);
            return false;
        }
        k = k + 1;
    }
    assert(s@.skip(i as int).take(pat@.len() as int) =~= pat@);
    true
}

/// Replaces every occurrence of `pat` in `s` by `rep`.
pub fn replace_chars(s: &Vec<char>, pat: &Vec<char>, rep: &Vec<char>) -> (out: Vec<char>)
    requires
        pat@.len() > 0,
    ensures
        out@ == replace_all(s@, pat@, rep@),
{
    let n = s.len();
    let mut out: Vec<char> = Vec::new();
    let mut i: usize = 0;
    assert(s@.skip(0) =~= s@);
    while i < n
        invariant
            n == s@.len(),
            i <= n,
            pat@.len() > 0,
            out@ + replace_all(s@.skip(i as int), pat@, rep@) == replace_all(s@, pat@, rep@),
        decreases n - i,
    {
        let ghost rest = s@.skip(i as int);
        if occurs_at(s, i, pat) {
            append_chars(&mut out, rep);
            assert(rest.skip(pat@.len() as int) =~= s@.skip(i + pat@.len()));
            i = i + pat.len();
        } else {
            out.push(s[i]);
            proof {
                assert(rest.skip(1) =~= s@.skip(i + 1));
                if rest.len() < pat@.len() {
                    assert(replace_all(rest.skip(1), pat@, rep@) == rest.skip(1));
                    assert(rest =~= seq![s@[i as int]] + rest.skip(1));
                }
            }
            i = i + 1;
        }
    }
    assert(s@.skip(n as int) =~= Seq::<char>::empty());
    assert(out@ + Seq::<char>::empty() =~= out@);
    out
}

/// The (placeholder, replacement) pairs that `format` applies for the
/// numeric placeholders `ms` of `t`: a placeholder whose index has an
/// argument is replaced by that argument's text.
pub open spec fn format_pairs(t: Seq<char>, ms: Seq<(int, int)>, args: Seq<(usize, Value)>) -> Seq<
    (Seq<char>, Seq<char>),
>
    decreases ms.len(),
{
    if ms.len() == 0 {
        seq![]
    } else {
        let prev = format_pairs(t, ms.drop_last(), args);
        let m = ms.last();
        match parse_index(t.subrange(m.0 + 1, m.1)) {
            Some(n) => match assoc_get(args, n) {
                Some(v) => prev.push((t.subrange(m.0, m.1 + 1), value_text(v))),
                None => prev,
            },
            None => prev,
        }
    }
}

/// The value that `format_with_context` uses for the last placeholder of
/// `ms`: a placeholder whose name parses as an index takes that argument;
/// any other takes the argument numbered by its position among all
/// placeholders (the first is argument 0), or else the context variable of
/// its name.
pub open spec fn context_choice(
    t: Seq<char>,
    ms: Seq<(int, int)>,
    args: Seq<(usize, Value)>,
    ctx: Seq<(Seq<char>, Value)>,
) -> Option<Value> {
    let m = ms.last();
    let key = t.subrange(m.0 + 1, m.1);
    match parse_index(key) {
        Some(n) => assoc_get(args, n),
        None => match assoc_get(args, (ms.len() - 1) as usize) {
            Some(v) => Some(v),
            None => assoc_get(ctx, key),
        },
    }
}

/// The (placeholder, replacement) pairs that `format_with_context` applies
/// for the placeholders `ms` of `t`.
pub open spec fn context_pairs(
    t: Seq<char>,
    ms: Seq<(int, int)>,
    args: Seq<(usize, Value)>,
    ctx: Seq<(Seq<char>, Value)>,
) -> Seq<(Seq<char>, Seq<char>)>
    decreases ms.len(),
{
    if ms.len() == 0 {
        seq![]
    } else {
        let prev = context_pairs(t, ms.drop_last(), args, ctx);
        let m = ms.last();
        match context_choice(t, ms, args, ctx) {
            Some(v) => prev.push((t.subrange(m.0, m.1 + 1), value_text(v))),
            None => prev,
        }
    }
}

/// `s` after applying each replacement in turn (each to the result of the
/// ones before).
pub open spec fn apply_pairs(s: Seq<char>, pairs: Seq<(Seq<char>, Seq<char>)>) -> Seq<char>
    decreases pairs.len(),
{
    if pairs.len() == 0 {
        s
    } else {
        replace_all(apply_pairs(s, pairs.drop_last()), pairs.last().0, pairs.last().1)
    }
}

/// The result of `format`.
pub open spec fn format_text(t: Seq<char>, args: Seq<(usize, Value)>) -> Seq<char> {
    if !t.contains('{') {
        t
    } else {
        apply_pairs(t, format_pairs(t, numeric_placeholders(t), args))
    }
}

/// The result of `format_with_context`.
pub open spec fn format_with_context_text(
    t: Seq<char>,
    args: Seq<(usize, Value)>,
    ctx: Seq<(Seq<char>, Value)>,
) -> Seq<char> {
    if !t.contains('{') {
        t
    } else {
        apply_pairs(t, context_pairs(t, placeholders(t), args, ctx))
    }
}

/// The texts of executable replacement pairs.
pub open spec fn pair_texts(v: Seq<(Vec<char>, Vec<char>)>) -> Seq<(Seq<char>, Seq<char>)> {
    v.map_values(|p: (Vec<char>, Vec<char>)| (p.0@, p.1@))
}

fn contains_char(t: &Vec<char>, c: char) -> (b: bool)
    ensures
        b == t@.contains(c),
{
    let mut i: usize = 0;
    while i < t.len()
        invariant
            i <= t@.len(),
            forall|m: int| 0 <= m < i ==> t@[m] != c,
        decreases t.len() - i,
    {
        if t[i] == c {
            assert(t@[i as int] == c);
            return true;
        }
        i = i + 1;
    }
    false
}

fn apply_replacements(t: Vec<char>, pairs: &Vec<(Vec<char>, Vec<char>)>) -> (out: Vec<char>)
    requires
        forall|j: int| 0 <= j < pairs@.len() ==> (#[trigger] pairs@[j]).0@.len() > 0,
    ensures
        out@ == apply_pairs(t@, pair_texts(pairs@)),
{
    let mut result = t;
    let mut j: usize = 0;
    assert(pair_texts(pairs@).take(0) =~= Seq::<(Seq<char>, Seq<char>)>::empty());
    while j < pairs.len()
        invariant
            j <= pairs@.len(),
            forall|k: int| 0 <= k < pairs@.len() ==> (#[trigger] pairs@[k]).0@.len() > 0,
            result@ == apply_pairs(t@, pair_texts(pairs@).take(j as int)),
        decreases pairs.len() - j,
    {
        assert(pairs@[j as int].0@.len() > 0);
        result = replace_chars(&result, &pairs[j].0, &pairs[j].1);
        assert(pair_texts(pairs@).take(j + 1).drop_last() =~= pair_texts(pairs@).take(j as int));
        j = j + 1;
    }
    assert(pair_texts(pairs@).take(pairs@.len() as int) =~= pair_texts(pairs@));
    result
}

/// Message formatter for template-based log messages.
pub struct MessageFormatter;

impl MessageFormatter {
    /// Fills the numeric placeholders `{0}`, `{1}`, ... of `template` with
    /// the text of the argument of that index; placeholders without an
    /// argument stay as they are.
    pub fn format(template: &str, arguments: &ArgMap<Value>) -> (s: String)
        ensures
            s@ == format_text(template@, arguments@),
    {
        let t = str_to_chars(template);
        if !contains_char(&t, '{') {
            return String::from_str(template);
        }
        let ms = find_numeric_placeholders(&t);
        let tlen = t.len();
        let mut pairs: Vec<(Vec<char>, Vec<char>)> = Vec::new();
        let mut i: usize = 0;
        assert(spans(ms@).take(0) =~= Seq::<(int, int)>::empty());
        assert(pair_texts(pairs@) =~= Seq::<(Seq<char>, Seq<char>)>::empty());
        while i < ms.len()
            invariant
                i <= ms@.len(),
                t@ == template@,
                tlen == t@.len(),
                spans(ms@) == numeric_placeholders(t@),
                pair_texts(pairs@) == format_pairs(t@, spans(ms@).take(i as int), arguments@),
                forall|j: int| 0 <= j < pairs@.len() ==> (#[trigger] pairs@[j]).0@.len() > 0,
            decreases ms.len() - i,
        {
            let (a, b) = ms[i];
            proof {
                lemma_numeric_bounds(t@, 0, i as int);
                assert(spans(ms@)[i as int] == (a as int, b as int));
                assert(spans(ms@).take(i + 1).drop_last() =~= spans(ms@).take(i as int));
                assert(spans(ms@).take(i + 1).last() == (a as int, b as int));
            }
            let ghost before = pair_texts(pairs@);
            match parse_index_at(&t, a + 1, b) {
                Some(n) => match arguments.get(n) {
                    Some(v) => {
                        let placeholder = copy_range(&t, a, b + 1);
                        let text = value_to_chars(v);
                        pairs.push((placeholder, text));
                        assert(pair_texts(pairs@) =~= before.push(
                            (t@.subrange(a as int, b + 1), value_text(*v)),
                        ));
                    },
                    None => {},
                },
                None => {},
            }
            i = i + 1;
        }
        assert(spans(ms@).take(ms@.len() as int) =~= spans(ms@));
        let out = apply_replacements(t, &pairs);
        chars_to_string(&out)
    }

    /// Fills all placeholders of `template`. A placeholder whose name is an
    /// index (`{0}`) takes the argument of that index. Any other (`{name}`)
    /// takes arguments by order of appearance: the first placeholder takes
    /// argument 0, the second argument 1, and so on; without such an
    /// argument it takes the context variable of its name. Placeholders with
    /// no value stay.
    pub fn format_with_context(
        template: &str,
        arguments: &ArgMap<Value>,
        context: &NamedMap<Value>,
    ) -> (s: String)
        ensures
            s@ == format_with_context_text(template@, arguments@, context@),
    {
        let t = str_to_chars(template);
        if !contains_char(&t, '{') {
            return String::from_str(template);
        }
        let ms = find_placeholders(&t);
        let tlen = t.len();
        let mut pairs: Vec<(Vec<char>, Vec<char>)> = Vec::new();
        let mut positional_index: usize = 0;
        assert(spans(ms@).take(0) =~= Seq::<(int, int)>::empty());
        assert(pair_texts(pairs@) =~= Seq::<(Seq<char>, Seq<char>)>::empty());
        while positional_index < ms.len()
            invariant
                positional_index <= ms@.len(),
                t@ == template@,
                tlen == t@.len(),
                spans(ms@) == placeholders(t@),
                pair_texts(pairs@) == context_pairs(
                    t@,
                    spans(ms@).take(positional_index as int),
                    arguments@,
                    context@,
                ),
                forall|j: int| 0 <= j < pairs@.len() ==> (#[trigger] pairs@[j]).0@.len() > 0,
            decreases ms.len() - positional_index,
        {
            let i = positional_index;
            let (a, b) = ms[i];
            let ghost prefix = spans(ms@).take(i + 1);
            proof {
                lemma_placeholder_bounds(t@, 0, i as int);
                assert(spans(ms@)[i as int] == (a as int, b as int));
                assert(prefix.drop_last() =~= spans(ms@).take(i as int));
                assert(prefix.last() == (a as int, b as int));
                assert(prefix.len() == i + 1);
            }
            let ghost before = pair_texts(pairs@);
            let key = copy_range(&t, a + 1, b);
            let chosen: Option<&Value> = match parse_index_at(&t, a + 1, b) {
                Some(index) => arguments.get(index),
                None => {
                    match arguments.get(i) {
                        Some(v) => Some(v),
                        None => {
                            let name = chars_to_string(&key);
                            context.get(name.as_str())
                        },
                    }
                },
            };
            match chosen {
                Some(v) => {
                    let placeholder = copy_range(&t, a, b + 1);
                    let text = value_to_chars(v);
                    pairs.push((placeholder, text));
                    assert(pair_texts(pairs@) =~= before.push(
                        (t@.subrange(a as int, b + 1), value_text(*v)),
                    ));
                },
                None => {},
            }
            positional_index = positional_index + 1;
        }
        assert(spans(ms@).take(ms@.len() as int) =~= spans(ms@));
        let out = apply_replacements(t, &pairs);
        chars_to_string(&out)
    }

    /// The plain text of a value.
    pub fn value_to_string(value: &Value) -> (s: String)
        ensures
            s@ == value_text(*value),
    {
        chars_to_string(&value_to_chars(value))
    }

    /// The names inside the placeholders of `template`, in order of
    /// appearance.
    pub fn extract_placeholders(template: &str) -> (names: Vec<String>)
        ensures
            names@.map_values(|s: String| s@) == placeholder_names(template@),
    {
        let t = str_to_chars(template);
        let ms = find_placeholders(&t);
        let mut names: Vec<String> = Vec::new();
        let mut i: usize = 0;
        while i < ms.len()
            invariant
                i <= ms@.len(),
                t@ == template@,
                spans(ms@) == placeholders(t@),
                names@.map_values(|s: String| s@) == placeholder_names(t@).take(i as int),
            decreases ms.len() - i,
        {
            let (a, b) = ms[i];
            let ghost before = names@.map_values(|s: String| s@);
            proof {
                lemma_placeholder_bounds(t@, 0, i as int);
                assert(spans(ms@)[i as int] == (a as int, b as int));
                assert(placeholder_names(t@)[i as int] == t@.subrange(a + 1, b as int));
            }
            let name = copy_range(&t, a + 1, b);
            let name_string = chars_to_string(&name);
            names.push(name_string);
            assert(names@.map_values(|s: String| s@) =~= before.push(name_string@));
            i = i + 1;
            assert(names@.map_values(|s: String| s@) =~= placeholder_names(t@).take(i as int));
        }
        assert(placeholder_names(t@).take(ms@.len() as int) =~= placeholder_names(t@));
        names
    }
}

/// Every placeholder lies inside the text with its `{` before its `}` and
/// at least one character between them.
pub proof fn lemma_placeholder_bounds(t: Seq<char>, from: int, k: int)
    requires
        0 <= from,
        0 <= k < placeholders_from(t, from).len(),
    ensures
        from <= placeholders_from(t, from)[k].0,
        placeholders_from(t, from)[k].0 + 1 < placeholders_from(t, from)[k].1 < t.len(),
        t[placeholders_from(t, from)[k].0] == '{',
        t[placeholders_from(t, from)[k].1] == '}',
    decreases t.len() - from,
{
    if from < t.len() {
        lemma_first_close(t, from + 1);
        if t[from] == '{' && first_close(t, from + 1) > from + 1 {
            let j = first_close(t, from + 1);
            if k > 0 {
                lemma_placeholder_bounds(t, j + 1, k - 1);
            }
        } else {
            lemma_placeholder_bounds(t, from + 1, k);
        }
    }
}

/// With no arguments, no numeric placeholder has a replacement.
pub proof fn lemma_format_pairs_without_arguments(t: Seq<char>, ms: Seq<(int, int)>)
    ensures
        format_pairs(t, ms, Seq::<(usize, Value)>::empty()) == Seq::<(Seq<char>, Seq<char>)>::empty(),
    decreases ms.len(),
{
    if ms.len() > 0 {
        lemma_format_pairs_without_arguments(t, ms.drop_last());
    }
}

/// With no arguments and no context, no placeholder has a replacement.
pub proof fn lemma_context_pairs_without_values(t: Seq<char>, ms: Seq<(int, int)>)
    ensures
        context_pairs(
            t,
            ms,
            Seq::<(usize, Value)>::empty(),
            Seq::<(Seq<char>, Value)>::empty(),
        ) == Seq::<(Seq<char>, Seq<char>)>::empty(),
    decreases ms.len(),
{
    if ms.len() > 0 {
        lemma_context_pairs_without_values(t, ms.drop_last());
    }
}

/// A template without `{` comes back unchanged from both formatting
/// functions, whatever the arguments and context.
pub proof fn law_plain_template_unchanged(
    t: Seq<char>,
    args: Seq<(usize, Value)>,
    ctx: Seq<(Seq<char>, Value)>,
)
    requires
        !t.contains('{'),
    ensures
        format_text(t, args) == t,
        format_with_context_text(t, args, ctx) == t,
{
}

/// Formatting without arguments (and, for `format_with_context`, without
/// context) leaves every template unchanged.
pub proof fn law_no_values_no_change(t: Seq<char>)
    ensures
        format_text(t, Seq::<(usize, Value)>::empty()) == t,
        format_with_context_text(
            t,
            Seq::<(usize, Value)>::empty(),
            Seq::<(Seq<char>, Value)>::empty(),
        ) == t,
{
    lemma_format_pairs_without_arguments(t, numeric_placeholders(t));
    lemma_context_pairs_without_values(t, placeholders(t));
}

/// Every extracted placeholder name is non-empty and holds no `}`, and the
/// template holds it enclosed in braces where the placeholder was found.
pub proof fn law_placeholder_names_well_formed(t: Seq<char>, k: int)
    requires
        0 <= k < placeholder_names(t).len(),
    ensures
        placeholder_names(t)[k].len() > 0,
        forall|m: int| 0 <= m < placeholder_names(t)[k].len() ==> placeholder_names(t)[k][m] != '}',
        t.subrange(placeholders(t)[k].0, placeholders(t)[k].1 + 1) == seq!['{']
            + placeholder_names(t)[k] + seq!['}'],
{
    lemma_placeholder_bounds(t, 0, k);
    lemma_placeholder_close(t, 0, k);
    let (i, j) = placeholders(t)[k];
    let name = placeholder_names(t)[k];
    assert(name == t.subrange(i + 1, j));
    assert(t.subrange(i, j + 1) =~= seq!['{'] + name + seq!['}']);
}

/// The `}` of a placeholder is the first one after its `{`.
pub proof fn lemma_placeholder_close(t: Seq<char>, from: int, k: int)
    requires
        0 <= from,
        0 <= k < placeholders_from(t, from).len(),
    ensures
        forall|m: int|
            placeholders_from(t, from)[k].0 < m < placeholders_from(t, from)[k].1 ==> t[m] != '}',
    decreases t.len() - from,
{
    if from < t.len() {
        lemma_first_close(t, from + 1);
        if t[from] == '{' && first_close(t, from + 1) > from + 1 {
            let j = first_close(t, from + 1);
            if k > 0 {
                lemma_placeholder_close(t, j + 1, k - 1);
            }
        } else {
            lemma_placeholder_close(t, from + 1, k);
        }
    }
}


/// Where every placeholder from `from` on has a name of digits only, the
/// numeric placeholders from `from` on are the same placeholders.
proof fn lemma_all_numeric_placeholders(t: Seq<char>, from: int)
    requires
        0 <= from,
        forall|k: int|
            0 <= k < placeholders_from(t, from).len() ==> all_digits(
                t.subrange(
                    (#[trigger] placeholders_from(t, from)[k]).0 + 1,
                    placeholders_from(t, from)[k].1,
                ),
            ),
    ensures
        numeric_placeholders_from(t, from) == placeholders_from(t, from),
    decreases t.len() - from,
{
    if from < t.len() {
        lemma_first_close(t, from + 1);
        lemma_digits_end(t, from + 1);
        let c = first_close(t, from + 1);
        let e = digits_end(t, from + 1);
        if t[from] == '{' && c > from + 1 {
            let ps = placeholders_from(t, from);
            let rest = placeholders_from(t, c + 1);
            assert(ps == seq![(from, c)] + rest);
            assert(ps[0] == (from, c));
            let name = t.subrange(from + 1, c);
            assert(all_digits(name));
            assert forall|m: int| from + 1 <= m < c implies is_digit(t[m]) by {
                assert(name[m - (from + 1)] == t[m]);
            }
            if e < c {
                assert(is_digit(t[e]));
            }
            if e > c {
                assert(is_digit(t[c]));
            }
            assert(e == c);
            assert forall|k: int| 0 <= k < rest.len() implies all_digits(
                t.subrange((#[trigger] rest[k]).0 + 1, rest[k].1),
            ) by {
                assert(rest[k] == ps[k + 1]);
            }
            lemma_all_numeric_placeholders(t, c + 1);
        } else {
            if t[from] == '{' && e > from + 1 && e < t.len() && t[e] == '}' {
                assert(c == e) by {
                    if c != -1 && c < e {
                        assert(is_digit(t[c]));
                    }
                }
                assert(false);
            }
            assert(placeholders_from(t, from) == placeholders_from(t, from + 1));
            lemma_all_numeric_placeholders(t, from + 1);
        }
    }
}

/// For placeholders whose names all read as indexes, `format_with_context`
/// picks the same replacements as `format`.
proof fn lemma_index_pairs_agree(
    t: Seq<char>,
    ms: Seq<(int, int)>,
    args: Seq<(usize, Value)>,
    ctx: Seq<(Seq<char>, Value)>,
)
    requires
        forall|k: int|
            0 <= k < ms.len() ==> parse_index(t.subrange((#[trigger] ms[k]).0 + 1, ms[k].1))
                is Some,
    ensures
        context_pairs(t, ms, args, ctx) == format_pairs(t, ms, args),
    decreases ms.len(),
{
    if ms.len() > 0 {
        let prev = ms.drop_last();
        assert forall|k: int| 0 <= k < prev.len() implies parse_index(
            t.subrange((#[trigger] prev[k]).0 + 1, prev[k].1),
        ) is Some by {
            assert(prev[k] == ms[k]);
        }
        lemma_index_pairs_agree(t, prev, args, ctx);
        assert(ms[ms.len() - 1] == ms.last());
    }
}

/// A template whose placeholders all have names of ASCII digits that read
/// as an index is filled by `format_with_context` exactly as by `format`,
/// whatever the context holds.
pub proof fn law_numeric_templates_ignore_context(
    t: Seq<char>,
    args: Seq<(usize, Value)>,
    ctx: Seq<(Seq<char>, Value)>,
)
    requires
        forall|k: int|
            0 <= k < placeholder_names(t).len() ==> all_digits(#[trigger] placeholder_names(t)[k])
                && parse_index(placeholder_names(t)[k]) is Some,
    ensures
        format_with_context_text(t, args, ctx) == format_text(t, args),
{
    let ps = placeholders(t);
    assert forall|k: int| 0 <= k < ps.len() implies all_digits(
        t.subrange((#[trigger] ps[k]).0 + 1, ps[k].1),
    ) by {
        assert(placeholder_names(t)[k] == t.subrange(ps[k].0 + 1, ps[k].1));
    }
    lemma_all_numeric_placeholders(t, 0);
    assert forall|k: int| 0 <= k < ps.len() implies parse_index(
        t.subrange((#[trigger] ps[k]).0 + 1, ps[k].1),
    ) is Some by {
        assert(placeholder_names(t)[k] == t.subrange(ps[k].0 + 1, ps[k].1));
    }
    lemma_index_pairs_agree(t, ps, args, ctx);
}

} // verus!
