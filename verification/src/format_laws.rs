//! What filling in a template does to its placeholders, stated over the
//! template's text and the values given.

use vstd::prelude::*;
use crate::formatter::{
    first_close, format_pairs, format_text, format_with_context_text, context_pairs, apply_pairs,
    digits_end, is_digit, lemma_decimal_reads_back, lemma_digits_end, lemma_first_close,
    numeric_placeholders, numeric_placeholders_from, parse_index, placeholders,
    placeholders_from, replace_all,
};
use crate::json::{value_text, Value};
use crate::maps::{assoc_get, has_key};
use crate::text::decimal;

verus! {

/// Whether `s` holds neither `{` nor `}`.
pub open spec fn brace_free(s: Seq<char>) -> bool {
    forall|i: int| 0 <= i < s.len() ==> s[i] != '{' && s[i] != '}'
}

/// The placeholder `{n}`.
pub open spec fn index_placeholder(n: usize) -> Seq<char> {
    seq!['{'] + decimal(n as nat) + seq!['}']
}

/// Replacing skips a stretch of `s` where the pattern does not start.
proof fn lemma_replace_skip(s: Seq<char>, pat: Seq<char>, rep: Seq<char>, m: int)
    requires
        pat.len() > 0,
        0 <= m <= s.len(),
        forall|i: int|
            0 <= i < m ==> !(s.len() - i >= pat.len() && #[trigger] s.skip(i).take(pat.len() as int)
                == pat),
    ensures
        replace_all(s, pat, rep) == s.take(m) + replace_all(s.skip(m), pat, rep),
    decreases m,
{
    if m == 0 {
        assert(s.take(0) + replace_all(s.skip(0), pat, rep) =~= replace_all(s, pat, rep)) by {
            assert(s.skip(0) =~= s);
        }
    } else if s.len() < pat.len() {
        assert(s.skip(m).len() < pat.len());
        assert(s.take(m) + s.skip(m) =~= s);
    } else {
        assert(s.skip(0) =~= s);
        let t = s.skip(1);
        assert forall|i: int|
            0 <= i < m - 1 implies !(t.len() - i >= pat.len() && #[trigger] t.skip(i).take(
                pat.len() as int,
            ) == pat) by {
            assert(t.skip(i) =~= s.skip(i + 1));
        }
        lemma_replace_skip(t, pat, rep, m - 1);
        assert(t.skip(m - 1) =~= s.skip(m));
        assert(seq![s[0]] + t.take(m - 1) =~= s.take(m));
    }
}

/// Where no `{` stands from `from` to `to`, the placeholders from `from` on
/// are those from `to` on.
proof fn lemma_skip_plain(t: Seq<char>, from: int, to: int)
    requires
        0 <= from <= to <= t.len(),
        forall|i: int| from <= i < to ==> t[i] != '{',
    ensures
        placeholders_from(t, from) == placeholders_from(t, to),
        numeric_placeholders_from(t, from) == numeric_placeholders_from(t, to),
    decreases to - from,
{
    if from < to {
        lemma_skip_plain(t, from + 1, to);
    }
}

/// Where no `{` stands from `from` on, there is no placeholder from there.
proof fn lemma_no_placeholders(t: Seq<char>, from: int)
    requires
        0 <= from <= t.len(),
        forall|i: int| from <= i < t.len() ==> t[i] != '{',
    ensures
        placeholders_from(t, from) == Seq::<(int, int)>::empty(),
        numeric_placeholders_from(t, from) == Seq::<(int, int)>::empty(),
{
    lemma_skip_plain(t, from, t.len() as int);
}

/// `{n}` reads as the index `n`, and its digits hold no brace.
proof fn lemma_index_text(n: usize)
    ensures
        parse_index(decimal(n as nat)) == Some(n),
        decimal(n as nat).len() > 0,
        forall|i: int| 0 <= i < decimal(n as nat).len() ==> is_digit(#[trigger] decimal(n as nat)[i]),
{
    lemma_decimal_reads_back(n as nat);
    let d = decimal(n as nat);
    assert(is_digit(d[0]));
}

/// The single placeholder of `a + {n} + b` (with `a` and `b` free of braces)
/// is `{n}`, both as a placeholder and as a numeric one.
proof fn lemma_single_index_placeholder(a: Seq<char>, n: usize, b: Seq<char>)
    requires
        brace_free(a),
        brace_free(b),
    ensures
        ({
            let t = a + index_placeholder(n) + b;
            let e = (a.len() + 1 + decimal(n as nat).len()) as int;
            &&& placeholders(t) == seq![(a.len() as int, e)]
            &&& numeric_placeholders(t) == seq![(a.len() as int, e)]
            &&& t.subrange(a.len() as int + 1, e) == decimal(n as nat)
            &&& t.subrange(a.len() as int, e + 1) == index_placeholder(n)
        }),
{
    let d = decimal(n as nat);
    lemma_index_text(n);
    let t = a + index_placeholder(n) + b;
    let s = a.len() as int;
    let e = s + 1 + d.len();
    assert forall|i: int| 0 <= i < s implies t[i] != '{' by {
        assert(t[i] == a[i]);
    }
    assert(t[s] == '{');
    assert forall|i: int| s + 1 <= i < e implies is_digit(t[i]) && t[i] != '}' by {
        assert(t[i] == d[i - s - 1]);
    }
    assert(t[e] == '}');
    assert forall|i: int| e + 1 <= i < t.len() implies t[i] != '{' by {
        assert(t[i] == b[i - e - 1]);
    }
    lemma_skip_plain(t, 0, s);
    lemma_no_placeholders(t, e + 1);
    lemma_first_close(t, s + 1);
    lemma_digits_end(t, s + 1);
    let c = first_close(t, s + 1);
    assert(c == e) by {
        if c != -1 && c < e {
            assert(t[c] != '}');
        }
        if c == -1 || c > e {
            assert(t[e] != '}');
        }
    }
    let de = digits_end(t, s + 1);
    assert(de == e) by {
        if de < e {
            assert(is_digit(t[de]));
        }
        if de > e {
            assert(is_digit(t[e]));
        }
    }
    assert(placeholders(t) =~= seq![(s, e)]);
    assert(numeric_placeholders(t) =~= seq![(s, e)]);
    assert(t.subrange(s + 1, e) =~= d);
    assert(t.subrange(s, e + 1) =~= index_placeholder(n));
}

/// Replacing `{n}` in `a + {n} + b` (with `a` and `b` free of braces) gives
/// `a + r + b`.
proof fn lemma_replace_single(a: Seq<char>, n: usize, b: Seq<char>, r: Seq<char>)
    requires
        brace_free(a),
        brace_free(b),
    ensures
        replace_all(a + index_placeholder(n) + b, index_placeholder(n), r) == a + r + b,
{
    let p = index_placeholder(n);
    assert(p[0] == '{');
    lemma_replace_alone(a, p, b, r);
}

/// A placeholder `{n}` standing in text without other braces is replaced by
/// the text of argument `n`, by `format` and by `format_with_context` alike,
/// for every index `n` and whatever the context holds.
pub proof fn law_index_placeholder_filled(
    a: Seq<char>,
    n: usize,
    b: Seq<char>,
    args: Seq<(usize, Value)>,
    ctx: Seq<(Seq<char>, Value)>,
    v: Value,
)
    requires
        brace_free(a),
        brace_free(b),
        assoc_get(args, n) == Some(v),
    ensures
        format_text(a + index_placeholder(n) + b, args) == a + value_text(v) + b,
        format_with_context_text(a + index_placeholder(n) + b, args, ctx) == a + value_text(v)
            + b,
{
    let t = a + index_placeholder(n) + b;
    let p = index_placeholder(n);
    lemma_index_text(n);
    lemma_single_index_placeholder(a, n, b);
    assert(t[a.len() as int] == '{');
    assert(t.contains('{'));
    let ms = placeholders(t);
    let st = a.len() as int;
    let e = (a.len() + 1 + decimal(n as nat).len()) as int;
    assert(ms.drop_last() =~= Seq::<(int, int)>::empty());
    assert(ms.last() == (st, e));
    assert(numeric_placeholders(t).drop_last() =~= Seq::<(int, int)>::empty());
    assert(numeric_placeholders(t).last() == (st, e));
    assert(parse_index(t.subrange(st + 1, e)) == Some(n));
    assert(format_pairs(t, Seq::<(int, int)>::empty(), args) =~= Seq::<(Seq<char>, Seq<char>)>::empty());
    assert(context_pairs(t, Seq::<(int, int)>::empty(), args, ctx) =~= Seq::<(Seq<char>, Seq<char>)>::empty());
    let pairs = seq![(p, value_text(v))];
    assert(format_pairs(t, numeric_placeholders(t), args) =~= pairs);
    assert(context_pairs(t, ms, args, ctx) =~= pairs);
    assert(pairs.drop_last() =~= Seq::<(Seq<char>, Seq<char>)>::empty());
    assert(apply_pairs(t, Seq::<(Seq<char>, Seq<char>)>::empty()) == t);
    assert(pairs.last() == (p, value_text(v)));
    assert(apply_pairs(t, pairs) == replace_all(t, p, value_text(v)));
    lemma_replace_single(a, n, b, value_text(v));
}

/// `k` placeholders named `a`, written one after another.
pub open spec fn a_row(k: nat) -> Seq<char> {
    Seq::new(
        3 * k,
        |i: int|
            if i % 3 == 0 {
                '{'
            } else if i % 3 == 1 {
                'a'
            } else {
                '}'
            },
    )
}

/// The placeholder `{b}`.
pub open spec fn b_placeholder() -> Seq<char> {
    seq!['{', 'b', '}']
}

proof fn lemma_row_chars(k: nat, i: int)
    requires
        0 <= i < k,
    ensures
        (a_row(k) + b_placeholder())[3 * i] == '{',
        (a_row(k) + b_placeholder())[3 * i + 1] == 'a',
        (a_row(k) + b_placeholder())[3 * i + 2] == '}',
{
    assert((3 * i) % 3 == 0) by (nonlinear_arith);
    assert((3 * i + 1) % 3 == 1) by (nonlinear_arith);
    assert((3 * i + 2) % 3 == 2) by (nonlinear_arith);
}

/// The placeholders of the row from the `i`-th on.
proof fn lemma_row_placeholders(k: nat, i: int)
    requires
        0 <= i <= k,
    ensures
        placeholders_from(a_row(k) + b_placeholder(), 3 * i) == Seq::new(
            (k + 1 - i) as nat,
            |j: int| (3 * (i + j), 3 * (i + j) + 2),
        ),
    decreases k - i,
{
    let t = a_row(k) + b_placeholder();
    if i < k {
        lemma_row_chars(k, i);
    } else {
        assert(t[3 * i] == '{');
        assert(t[3 * i + 1] == 'b');
        assert(t[3 * i + 2] == '}');
    }
    assert(first_close(t, 3 * i + 2) == 3 * i + 2);
    assert(first_close(t, 3 * i + 1) == 3 * i + 2);
    if i < k {
        lemma_row_placeholders(k, i + 1);
        assert(3 * (i + 1) == 3 * i + 3);
    } else {
        assert(placeholders_from(t, 3 * i + 3) =~= Seq::<(int, int)>::empty());
    }
    assert(placeholders_from(t, 3 * i) =~= Seq::new(
        (k + 1 - i) as nat,
        |j: int| (3 * (i + j), 3 * (i + j) + 2),
    ));
}

/// No placeholder named `a` of the row finds a value.
proof fn lemma_row_pairs_empty(
    k: nat,
    j: int,
    v: Value,
    ctx: Seq<(Seq<char>, Value)>,
)
    requires
        0 <= j <= k,
        k <= usize::MAX,
        !has_key(ctx, seq!['a']),
    ensures
        context_pairs(
            a_row(k) + b_placeholder(),
            placeholders(a_row(k) + b_placeholder()).take(j),
            seq![(k as usize, v)],
            ctx,
        ) == Seq::<(Seq<char>, Seq<char>)>::empty(),
    decreases j,
{
    let t = a_row(k) + b_placeholder();
    let ms = placeholders(t);
    lemma_row_placeholders(k, 0);
    if j > 0 {
        lemma_row_pairs_empty(k, j - 1, v, ctx);
        let pre = ms.take(j);
        assert(pre.drop_last() =~= ms.take(j - 1));
        let m = pre.last();
        assert(m == (3 * (j - 1), 3 * (j - 1) + 2));
        lemma_row_chars(k, j - 1);
        assert(t.subrange(m.0 + 1, m.1) =~= seq!['a']);
        assert(!is_digit('a'));
        assert(parse_index(seq!['a']) is None);
        let args = seq![(k as usize, v)];
        assert(!has_key(args, (pre.len() - 1) as usize)) by {
            if has_key(args, (pre.len() - 1) as usize) {
                let x = choose|x: int| 0 <= x < args.len() && args[x].0 == (pre.len() - 1) as usize;
                assert(args[x].0 == k as usize);
            }
        }
    }
}

/// Filling in a row of `k` placeholders named `a` followed by one named
/// `b`, with argument `k` and no other argument, puts argument `k` in
/// place of `{b}`: a named placeholder takes the argument of its position
/// among all placeholders (counting from 0), for every position.
pub proof fn law_named_placeholder_takes_its_position(
    k: nat,
    v: Value,
    ctx: Seq<(Seq<char>, Value)>,
)
    requires
        k <= usize::MAX,
        !has_key(ctx, seq!['a']),
    ensures
        format_with_context_text(a_row(k) + b_placeholder(), seq![(k as usize, v)], ctx) == a_row(
            k,
        ) + value_text(v),
{
    let kk = k as int;
    let t = a_row(k) + b_placeholder();
    let ms = placeholders(t);
    let args = seq![(k as usize, v)];
    let vt = value_text(v);
    lemma_row_placeholders(k, 0);
    assert(ms.len() == k + 1);
    lemma_row_pairs_empty(k, k as int, v, ctx);
    assert(ms.take(k as int) =~= ms.drop_last());
    assert(ms.last() == (3 * kk, 3 * kk + 2));
    assert(t[3 * kk] == '{');
    assert(t.contains('{'));
    assert(t.subrange(3 * kk + 1, 3 * kk + 2) =~= seq!['b']);
    assert(!is_digit('b'));
    assert(parse_index(seq!['b']) is None);
    assert(has_key(args, k as usize)) by {
        assert(args[0].0 == k as usize);
    }
    assert(assoc_get(args, k as usize) == Some(v)) by {
        let x = choose|x: int| 0 <= x < args.len() && args[x].0 == k as usize;
        assert(x == 0);
    }
    assert(t.subrange(3 * kk, 3 * kk + 3) =~= b_placeholder());
    let pairs = seq![(b_placeholder(), vt)];
    assert(context_pairs(t, ms, args, ctx) =~= pairs);
    assert(pairs.drop_last() =~= Seq::<(Seq<char>, Seq<char>)>::empty());
    assert(apply_pairs(t, Seq::<(Seq<char>, Seq<char>)>::empty()) == t);
    assert(apply_pairs(t, pairs) == replace_all(t, b_placeholder(), vt));
    let p = b_placeholder();
    assert forall|i: int|
        0 <= i < 3 * kk implies !(t.len() - i >= p.len() && #[trigger] t.skip(i).take(
            p.len() as int,
        ) == p) by {
        let q = i / 3;
        assert(0 <= q < kk && i == 3 * q + i % 3) by (nonlinear_arith)
            requires
                0 <= i < 3 * kk,
                q == i / 3,
        ;
        lemma_row_chars(k, q);
        if t.len() - i >= p.len() {
            if i % 3 == 0 {
                assert(t.skip(i).take(3)[1] == t[3 * q + 1]);
            } else {
                assert(t.skip(i).take(3)[0] == t[i]);
            }
        }
    }
    lemma_replace_skip(t, p, vt, 3 * kk);
    assert(t.take(3 * kk) =~= a_row(k));
    assert(t.skip(3 * kk) =~= p);
    assert(p.take(3) =~= p);
    assert(p.skip(3).len() == 0);
    assert(replace_all(p.skip(3), p, vt) =~= Seq::<char>::empty());
    assert(replace_all(p, p, vt) =~= vt);
}

/// A placeholder `{name}` with a name that is not an index, standing alone
/// in text without other braces, takes the context variable of that name
/// when there is no argument 0 (its position), for every name.
pub proof fn law_named_placeholder_falls_back_to_context(
    a: Seq<char>,
    name: Seq<char>,
    b: Seq<char>,
    args: Seq<(usize, Value)>,
    ctx: Seq<(Seq<char>, Value)>,
    v: Value,
)
    requires
        brace_free(a),
        brace_free(b),
        brace_free(name),
        name.len() > 0,
        parse_index(name) is None,
        !has_key(args, 0),
        assoc_get(ctx, name) == Some(v),
    ensures
        format_with_context_text(a + (seq!['{'] + name + seq!['}']) + b, args, ctx) == a
            + value_text(v) + b,
{
    let p = seq!['{'] + name + seq!['}'];
    let t = a + p + b;
    let st = a.len() as int;
    let e = st + 1 + name.len();
    assert forall|i: int| 0 <= i < st implies t[i] != '{' by {
        assert(t[i] == a[i]);
    }
    assert(t[st] == '{');
    assert forall|i: int| st + 1 <= i < e implies t[i] != '}' by {
        assert(t[i] == name[i - st - 1]);
    }
    assert(t[e] == '}');
    assert forall|i: int| e + 1 <= i < t.len() implies t[i] != '{' by {
        assert(t[i] == b[i - e - 1]);
    }
    lemma_skip_plain(t, 0, st);
    lemma_no_placeholders(t, e + 1);
    lemma_first_close(t, st + 1);
    let c = first_close(t, st + 1);
    assert(c == e) by {
        if c != -1 && c < e {
            assert(t[c] != '}');
        }
        if c == -1 || c > e {
            assert(t[e] != '}');
        }
    }
    let ms = placeholders(t);
    assert(ms =~= seq![(st, e)]);
    assert(ms.drop_last() =~= Seq::<(int, int)>::empty());
    assert(t.subrange(st + 1, e) =~= name);
    assert(t.subrange(st, e + 1) =~= p);
    assert(t.contains('{'));
    assert(assoc_get(args, 0) is None);
    assert(context_pairs(t, Seq::<(int, int)>::empty(), args, ctx) =~= Seq::<
        (Seq<char>, Seq<char>),
    >::empty());
    let pairs = seq![(p, value_text(v))];
    assert(context_pairs(t, ms, args, ctx) =~= pairs);
    assert(pairs.drop_last() =~= Seq::<(Seq<char>, Seq<char>)>::empty());
    assert(apply_pairs(t, Seq::<(Seq<char>, Seq<char>)>::empty()) == t);
    assert(pairs.last() == (p, value_text(v)));
    assert(apply_pairs(t, pairs) == replace_all(t, p, value_text(v)));
    lemma_replace_alone(a, p, b, value_text(v));
}

/// Replacing a braced text `p` that stands once in `a + p + b` (with `a`
/// and `b` free of braces) gives `a + r + b`.
proof fn lemma_replace_alone(a: Seq<char>, p: Seq<char>, b: Seq<char>, r: Seq<char>)
    requires
        brace_free(a),
        brace_free(b),
        p.len() > 0,
        p[0] == '{',
    ensures
        replace_all(a + p + b, p, r) == a + r + b,
{
    let t = a + p + b;
    assert forall|i: int|
        0 <= i < a.len() implies !(t.len() - i >= p.len() && #[trigger] t.skip(i).take(
            p.len() as int,
        ) == p) by {
        if t.len() - i >= p.len() {
            assert(t.skip(i).take(p.len() as int)[0] == a[i]);
        }
    }
    lemma_replace_skip(t, p, r, a.len() as int);
    assert(t.take(a.len() as int) =~= a);
    let u = t.skip(a.len() as int);
    assert(u =~= p + b);
    assert(u.take(p.len() as int) =~= p);
    assert(u.skip(p.len() as int) =~= b);
    assert forall|i: int|
        0 <= i < b.len() implies !(b.len() - i >= p.len() && #[trigger] b.skip(i).take(
            p.len() as int,
        ) == p) by {
        if b.len() - i >= p.len() {
            assert(b.skip(i).take(p.len() as int)[0] == b[i]);
        }
    }
    lemma_replace_skip(b, p, r, b.len() as int);
    assert(b.take(b.len() as int) =~= b);
    assert(b.skip(b.len() as int).len() < p.len());
    assert(replace_all(b, p, r) =~= b);
    assert(replace_all(u, p, r) == r + replace_all(b, p, r));
    assert(a + (r + b) =~= a + r + b);
}

} // verus!
