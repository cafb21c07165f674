//! Entries laid one after another in one buffer, as a PLC packs them into a
//! single write: reading the buffer gives the entries in order.

use vstd::prelude::*;
use crate::errors::AdsErrorModel;
use crate::maps::assoc_insert;
use crate::parser::{
    context_key, spec_parse_all, spec_parse_all_from, spec_parse_app, spec_parse_entry, spec_parse_header, spec_parse_intro,
    spec_parse_items, spec_parse_task, AdsLogEntryModel,
    MAX_ARGUMENTS, MAX_CONTEXT_VARS, MAX_MESSAGE_SIZE,
};
use crate::reader::{
    lemma_read_string_advances, lemma_read_value_advances, spec_read_filetime, spec_read_i16, spec_read_i32, spec_read_i64,
    spec_read_string, spec_read_u16, spec_read_u32, spec_read_u64, spec_read_u8,
    spec_read_value, spec_value_payload, take_bytes,
};
use crate::values::AdsValueModel;

verus! {

/// A reading result with its position moved by `o`.
pub open spec fn shifted<T>(r: Result<(T, int), AdsErrorModel>, o: int) -> Result<
    (T, int),
    AdsErrorModel,
> {
    match r {
        Ok((v, q)) => Ok((v, q + o)),
        Err(e) => Err(e),
    }
}

/// A result of reading items with its position moved by `o`.
pub open spec fn shifted_items(
    r: Result<(Seq<(usize, AdsValueModel)>, Seq<(Seq<char>, AdsValueModel)>, int), AdsErrorModel>,
    o: int,
) -> Result<(Seq<(usize, AdsValueModel)>, Seq<(Seq<char>, AdsValueModel)>, int), AdsErrorModel> {
    match r {
        Ok((a, c, q)) => Ok((a, c, q + o)),
        Err(e) => Err(e),
    }
}

/// `take_bytes` of `d` from `o + p` is that of `d.skip(o)` from `p`.
proof fn lemma_tail_take(d: Seq<u8>, o: int, p: int, n: nat)
    requires
        0 <= o <= d.len(),
        0 <= p,
    ensures
        take_bytes(d, o + p, n) == shifted(take_bytes(d.skip(o), p, n), o),
{
    let y = d.skip(o);
    if y.len() - p >= n {
        assert(d.subrange(o + p, o + p + n) =~= y.subrange(p, p + n));
    }
}

/// The fixed-size reads of `d` from `o + p` are those of `d.skip(o)` from
/// `p`.
proof fn lemma_tail_numbers(d: Seq<u8>, o: int, p: int)
    requires
        0 <= o <= d.len(),
        0 <= p,
    ensures
        spec_read_u8(d, o + p) == shifted(spec_read_u8(d.skip(o), p), o),
        spec_read_u16(d, o + p) == shifted(spec_read_u16(d.skip(o), p), o),
        spec_read_i16(d, o + p) == shifted(spec_read_i16(d.skip(o), p), o),
        spec_read_u32(d, o + p) == shifted(spec_read_u32(d.skip(o), p), o),
        spec_read_i32(d, o + p) == shifted(spec_read_i32(d.skip(o), p), o),
        spec_read_u64(d, o + p) == shifted(spec_read_u64(d.skip(o), p), o),
        spec_read_i64(d, o + p) == shifted(spec_read_i64(d.skip(o), p), o),
{
    lemma_tail_take(d, o, p, 1);
    lemma_tail_take(d, o, p, 2);
    lemma_tail_take(d, o, p, 4);
    lemma_tail_take(d, o, p, 8);
}

/// String and FILETIME reads of `d` from `o + p` are those of `d.skip(o)`
/// from `p`.
proof fn lemma_tail_strings(d: Seq<u8>, o: int, p: int)
    requires
        0 <= o <= d.len(),
        0 <= p,
    ensures
        spec_read_string(d, o + p) == shifted(spec_read_string(d.skip(o), p), o),
        spec_read_filetime(d, o + p) == shifted(spec_read_filetime(d.skip(o), p), o),
{
    lemma_tail_numbers(d, o, p);
    let y = d.skip(o);
    if let Ok((len, q)) = spec_read_u8(y, p) {
        lemma_tail_take(d, o, q, len as nat);
    }
}

/// The payload of a value of type `t` read from `d` at `o + q` is that
/// read from `d.skip(o)` at `q`.
#[verifier::spinoff_prover]
#[verifier::rlimit(80)]
proof fn lemma_tail_payload(d: Seq<u8>, o: int, q: int, t: int)
    requires
        0 <= o <= d.len(),
        0 <= q,
    ensures
        spec_value_payload(d, o + q, t) == shifted(spec_value_payload(d.skip(o), q, t), o),
{
    let y = d.skip(o);
    lemma_tail_numbers(d, o, q);
    lemma_tail_strings(d, o, q);
    if t == 20005 {
        if let Ok((u, r)) = spec_read_i16(y, q) {
            lemma_tail_numbers(d, o, r);
        }
    } else if t == 20006 {
        if let Ok((count, r)) = spec_read_u8(y, q) {
            lemma_tail_take(d, o, r, 2 * count as nat);
        }
    }
}

/// A typed-value read of `d` from `o + p` is the same read of `d.skip(o)`
/// from `p`.
proof fn lemma_tail_value(d: Seq<u8>, o: int, p: int)
    requires
        0 <= o <= d.len(),
        0 <= p,
    ensures
        spec_read_value(d, o + p) == shifted(spec_read_value(d.skip(o), p), o),
{
    reveal(spec_read_value);
    lemma_tail_numbers(d, o, p);
    if let Ok((t, q)) = spec_read_i16(d.skip(o), p) {
        lemma_tail_payload(d, o, q, t as int);
    }
}

proof fn lemma_tail_intro(d: Seq<u8>, o: int, p: int)
    requires
        0 <= o <= d.len(),
        0 <= p,
    ensures
        spec_parse_intro(d, o + p) == shifted(spec_parse_intro(d.skip(o), p), o),
{
    let y = d.skip(o);
    lemma_tail_numbers(d, o, p);
    if let Ok((_, p1)) = spec_read_u8(y, p) {
        lemma_tail_strings(d, o, p1);
        if let Ok((_, p2)) = spec_read_string(y, p1) {
            lemma_tail_strings(d, o, p2);
            if let Ok((_, p3)) = spec_read_string(y, p2) {
                lemma_tail_take(d, o, p3, 2);
            }
        }
    }
}

#[verifier::spinoff_prover]
#[verifier::rlimit(100)]
proof fn lemma_tail_task(d: Seq<u8>, o: int, p: int)
    requires
        0 <= o <= d.len(),
        0 <= p,
    ensures
        spec_parse_task(d, o + p) == shifted(spec_parse_task(d.skip(o), p), o),
{
    let y = d.skip(o);
    lemma_tail_strings(d, o, p);
    if let Ok((_, t1)) = spec_read_filetime(y, p) {
        lemma_tail_strings(d, o, t1);
        if let Ok((_, t2)) = spec_read_filetime(y, t1) {
            lemma_tail_numbers(d, o, t2);
            if let Ok((_, t3)) = spec_read_i32(y, t2) {
                lemma_tail_strings(d, o, t3);
                if let Ok((_, t4)) = spec_read_string(y, t3) {
                    lemma_tail_numbers(d, o, t4);
                }
            }
        }
    }
}

proof fn lemma_tail_app(d: Seq<u8>, o: int, p: int)
    requires
        0 <= o <= d.len(),
        0 <= p,
    ensures
        spec_parse_app(d, o + p) == shifted(spec_parse_app(d.skip(o), p), o),
{
    let y = d.skip(o);
    lemma_tail_strings(d, o, p);
    if let Ok((_, a1)) = spec_read_string(y, p) {
        lemma_tail_strings(d, o, a1);
        if let Ok((_, a2)) = spec_read_string(y, a1) {
            lemma_tail_numbers(d, o, a2);
        }
    }
}

/// The fixed part of an entry read from `d` at `o + p` is that read from
/// `d.skip(o)` at `p`.
#[verifier::spinoff_prover]
#[verifier::rlimit(80)]
proof fn lemma_tail_header(d: Seq<u8>, o: int, p: int)
    requires
        0 <= o <= d.len(),
        0 <= p,
    ensures
        spec_parse_header(d, o + p) == shifted(spec_parse_header(d.skip(o), p), o),
{
    let y = d.skip(o);
    lemma_tail_intro(d, o, p);
    if let Ok((_, t0)) = spec_parse_intro(y, p) {
        lemma_tail_task(d, o, t0);
        if let Ok((_, a0)) = spec_parse_task(y, t0) {
            lemma_tail_app(d, o, a0);
        }
    }
}

/// The items of an entry read from `d` at `o + p` are those read from
/// `d.skip(o)` at `p`.
#[verifier::spinoff_prover]
#[verifier::rlimit(100)]
proof fn lemma_tail_items(
    d: Seq<u8>,
    o: int,
    p: int,
    args: Seq<(usize, AdsValueModel)>,
    ctx: Seq<(Seq<char>, AdsValueModel)>,
)
    requires
        0 <= o <= d.len(),
        0 <= p,
    ensures
        spec_parse_items(d, o + p, args, ctx) == shifted_items(
            spec_parse_items(d.skip(o), p, args, ctx),
            o,
        ),
    decreases d.len() - o - p,
{
    let y = d.skip(o);
    if p < y.len() {
        assert(d[o + p] == y[p]);
        let t = y[p];
        let q = p + 1;
        if t == 0 || t == 255 {
        } else if t == 1 {
            if args.len() < MAX_ARGUMENTS {
                lemma_tail_numbers(d, o, q);
                if let Ok((index, q2)) = spec_read_u8(y, q) {
                    lemma_tail_value(d, o, q2);
                    lemma_read_value_advances(y, q2);
                    if let Ok((v, q3)) = spec_read_value(y, q2) {
                        lemma_tail_items(d, o, q3, assoc_insert(args, index as usize, v), ctx);
                    }
                }
            }
        } else if t == 2 {
            if ctx.len() < MAX_CONTEXT_VARS {
                lemma_tail_numbers(d, o, q);
                if let Ok((scope, q2)) = spec_read_u8(y, q) {
                    lemma_tail_strings(d, o, q2);
                    lemma_read_string_advances(y, q2);
                    if let Ok((name, q3)) = spec_read_string(y, q2) {
                        lemma_tail_value(d, o, q3);
                        lemma_read_value_advances(y, q3);
                        if let Ok((v, q4)) = spec_read_value(y, q3) {
                            lemma_tail_items(
                                d,
                                o,
                                q4,
                                args,
                                assoc_insert(ctx, context_key(scope, name), v),
                            );
                        }
                    }
                }
            }
        } else {
            lemma_tail_items(d, o, q, args, ctx);
        }
    }
}

/// An entry read from `d` at `o + p` is the entry read from `d.skip(o)` at
/// `p`.
pub proof fn lemma_tail_entry(d: Seq<u8>, o: int, p: int)
    requires
        0 <= o <= d.len(),
        0 <= p,
    ensures
        spec_parse_entry(d, o + p) == shifted(spec_parse_entry(d.skip(o), p), o),
{
    reveal(spec_parse_entry);
    lemma_tail_header(d, o, p);
    if let Ok((_, q)) = spec_parse_header(d.skip(o), p) {
        lemma_tail_items(d, o, q, seq![], seq![]);
    }
}

/// Whether reading the items of `d` from `p` stops at an end marker (a
/// 0 or 255 where an item would start), rather than at the end of the data
/// or on an error.
pub open spec fn items_end_at_marker(
    d: Seq<u8>,
    p: int,
    args: Seq<(usize, AdsValueModel)>,
    ctx: Seq<(Seq<char>, AdsValueModel)>,
) -> bool
    decreases d.len() - p,
{
    if p < 0 || p >= d.len() {
        false
    } else {
        let t = d[p];
        let q = p + 1;
        if t == 0 || t == 255 {
            true
        } else if t == 1 {
            if args.len() >= MAX_ARGUMENTS {
                false
            } else {
                match spec_read_u8(d, q) {
                    Err(_) => false,
                    Ok((index, q2)) => match spec_read_value(d, q2) {
                        Err(_) => false,
                        Ok((v, q3)) => {
                            proof {
                                lemma_read_value_advances(d, q2);
                            }
                            items_end_at_marker(d, q3, assoc_insert(args, index as usize, v), ctx)
                        },
                    },
                }
            }
        } else if t == 2 {
            if ctx.len() >= MAX_CONTEXT_VARS {
                false
            } else {
                match spec_read_u8(d, q) {
                    Err(_) => false,
                    Ok((scope, q2)) => match spec_read_string(d, q2) {
                        Err(_) => false,
                        Ok((name, q3)) => match spec_read_value(d, q3) {
                            Err(_) => false,
                            Ok((v, q4)) => {
                                proof {
                                    lemma_read_value_advances(d, q3);
                                }
                                items_end_at_marker(
                                    d,
                                    q4,
                                    args,
                                    assoc_insert(ctx, context_key(scope, name), v),
                                )
                            },
                        },
                    },
                }
            }
        } else {
            items_end_at_marker(d, q, args, ctx)
        }
    }
}

/// A successful `take_bytes` of `y` is the same in `y + z`.
proof fn lemma_ext_take(y: Seq<u8>, z: Seq<u8>, p: int, n: nat)
    requires
        0 <= p,
    ensures
        take_bytes(y, p, n) is Ok ==> take_bytes(y + z, p, n) == take_bytes(y, p, n),
{
    if y.len() - p >= n {
        assert((y + z).subrange(p, p + n) =~= y.subrange(p, p + n));
    }
}

proof fn lemma_ext_numbers(y: Seq<u8>, z: Seq<u8>, p: int)
    requires
        0 <= p,
    ensures
        spec_read_u8(y, p) is Ok ==> spec_read_u8(y + z, p) == spec_read_u8(y, p),
        spec_read_u16(y, p) is Ok ==> spec_read_u16(y + z, p) == spec_read_u16(y, p),
        spec_read_i16(y, p) is Ok ==> spec_read_i16(y + z, p) == spec_read_i16(y, p),
        spec_read_u32(y, p) is Ok ==> spec_read_u32(y + z, p) == spec_read_u32(y, p),
        spec_read_i32(y, p) is Ok ==> spec_read_i32(y + z, p) == spec_read_i32(y, p),
        spec_read_u64(y, p) is Ok ==> spec_read_u64(y + z, p) == spec_read_u64(y, p),
        spec_read_i64(y, p) is Ok ==> spec_read_i64(y + z, p) == spec_read_i64(y, p),
{
    lemma_ext_take(y, z, p, 1);
    lemma_ext_take(y, z, p, 2);
    lemma_ext_take(y, z, p, 4);
    lemma_ext_take(y, z, p, 8);
}

proof fn lemma_ext_strings(y: Seq<u8>, z: Seq<u8>, p: int)
    requires
        0 <= p,
    ensures
        spec_read_string(y, p) is Ok ==> spec_read_string(y + z, p) == spec_read_string(y, p),
        spec_read_filetime(y, p) is Ok ==> spec_read_filetime(y + z, p) == spec_read_filetime(
            y,
            p,
        ),
{
    lemma_ext_numbers(y, z, p);
    if let Ok((len, q)) = spec_read_u8(y, p) {
        lemma_ext_take(y, z, q, len as nat);
    }
}

#[verifier::spinoff_prover]
#[verifier::rlimit(80)]
proof fn lemma_ext_payload(y: Seq<u8>, z: Seq<u8>, q: int, t: int)
    requires
        0 <= q,
    ensures
        spec_value_payload(y, q, t) is Ok ==> spec_value_payload(y + z, q, t)
            == spec_value_payload(y, q, t),
{
    lemma_ext_numbers(y, z, q);
    lemma_ext_strings(y, z, q);
    if t == 20005 {
        if let Ok((u, r)) = spec_read_i16(y, q) {
            lemma_ext_numbers(y, z, r);
        }
    } else if t == 20006 {
        if let Ok((count, r)) = spec_read_u8(y, q) {
            lemma_ext_take(y, z, r, 2 * count as nat);
        }
    }
}

proof fn lemma_ext_value(y: Seq<u8>, z: Seq<u8>, p: int)
    requires
        0 <= p,
    ensures
        spec_read_value(y, p) is Ok ==> spec_read_value(y + z, p) == spec_read_value(y, p),
{
    reveal(spec_read_value);
    lemma_ext_numbers(y, z, p);
    if let Ok((t, q)) = spec_read_i16(y, p) {
        lemma_ext_payload(y, z, q, t as int);
    }
}

#[verifier::spinoff_prover]
#[verifier::rlimit(100)]
proof fn lemma_ext_header(y: Seq<u8>, z: Seq<u8>, p: int)
    requires
        0 <= p,
    ensures
        spec_parse_header(y, p) is Ok ==> spec_parse_header(y + z, p) == spec_parse_header(y, p),
{
    lemma_ext_numbers(y, z, p);
    if let Ok((_, p1)) = spec_read_u8(y, p) {
        lemma_ext_strings(y, z, p1);
        if let Ok((_, p2)) = spec_read_string(y, p1) {
            lemma_ext_strings(y, z, p2);
            if let Ok((_, p3)) = spec_read_string(y, p2) {
                lemma_ext_take(y, z, p3, 2);
            }
        }
    }
    if let Ok((_, t0)) = spec_parse_intro(y, p) {
        lemma_ext_strings(y, z, t0);
        if let Ok((_, t1)) = spec_read_filetime(y, t0) {
            lemma_ext_strings(y, z, t1);
            if let Ok((_, t2)) = spec_read_filetime(y, t1) {
                lemma_ext_numbers(y, z, t2);
                if let Ok((_, t3)) = spec_read_i32(y, t2) {
                    lemma_ext_strings(y, z, t3);
                    if let Ok((_, t4)) = spec_read_string(y, t3) {
                        lemma_ext_numbers(y, z, t4);
                    }
                }
            }
        }
        if let Ok((_, a0)) = spec_parse_task(y, t0) {
            lemma_ext_strings(y, z, a0);
            if let Ok((_, a1)) = spec_read_string(y, a0) {
                lemma_ext_strings(y, z, a1);
                if let Ok((_, a2)) = spec_read_string(y, a1) {
                    lemma_ext_numbers(y, z, a2);
                }
            }
        }
    }
}

/// Items that end at an end marker read the same whatever follows.
#[verifier::spinoff_prover]
#[verifier::rlimit(100)]
proof fn lemma_ext_items(
    y: Seq<u8>,
    z: Seq<u8>,
    p: int,
    args: Seq<(usize, AdsValueModel)>,
    ctx: Seq<(Seq<char>, AdsValueModel)>,
)
    requires
        0 <= p,
        items_end_at_marker(y, p, args, ctx),
    ensures
        spec_parse_items(y + z, p, args, ctx) == spec_parse_items(y, p, args, ctx),
    decreases y.len() - p,
{
    let d = y + z;
    assert(d[p] == y[p]);
    let t = y[p];
    let q = p + 1;
    if t == 0 || t == 255 {
    } else if t == 1 {
        lemma_ext_numbers(y, z, q);
        let (index, q2) = spec_read_u8(y, q)->Ok_0;
        lemma_ext_value(y, z, q2);
        lemma_read_value_advances(y, q2);
        let (v, q3) = spec_read_value(y, q2)->Ok_0;
        lemma_ext_items(y, z, q3, assoc_insert(args, index as usize, v), ctx);
    } else if t == 2 {
        lemma_ext_numbers(y, z, q);
        let (scope, q2) = spec_read_u8(y, q)->Ok_0;
        lemma_ext_strings(y, z, q2);
        lemma_read_string_advances(y, q2);
        let (name, q3) = spec_read_string(y, q2)->Ok_0;
        lemma_ext_value(y, z, q3);
        lemma_read_value_advances(y, q3);
        let (v, q4) = spec_read_value(y, q3)->Ok_0;
        lemma_ext_items(y, z, q4, args, assoc_insert(ctx, context_key(scope, name), v));
    } else {
        lemma_ext_items(y, z, q, args, ctx);
    }
}

/// Whether `y` is exactly one entry: it does not start with padding, it
/// reads as an entry from its first byte to its last, and its items close
/// with an end marker.
pub open spec fn complete_entry(y: Seq<u8>) -> bool {
    &&& y.len() > 0
    &&& y[0] != 0
    &&& spec_parse_header(y, 0) matches Ok((_, q)) && items_end_at_marker(y, q, seq![], seq![])
    &&& spec_parse_entry(y, 0) matches Ok((_, r)) && r == y.len()
}

/// The entry that a complete entry's bytes hold.
pub open spec fn entry_of(y: Seq<u8>) -> AdsLogEntryModel {
    spec_parse_entry(y, 0)->Ok_0.0
}

/// The byte sequences `ps` one after another.
pub open spec fn flatten(ps: Seq<Seq<u8>>) -> Seq<u8>
    decreases ps.len(),
{
    if ps.len() == 0 {
        seq![]
    } else {
        flatten(ps.drop_last()) + ps.last()
    }
}

/// `n` zero bytes.
pub open spec fn zeros(n: nat) -> Seq<u8> {
    Seq::new(n, |i: int| 0u8)
}

/// A complete entry reads the same whatever follows it.
proof fn lemma_ext_entry(y: Seq<u8>, z: Seq<u8>)
    requires
        complete_entry(y),
    ensures
        spec_parse_entry(y + z, 0) == spec_parse_entry(y, 0),
{
    reveal(spec_parse_entry);
    lemma_ext_header(y, z, 0);
    let q = spec_parse_header(y, 0)->Ok_0.1;
    lemma_ext_items(y, z, q, seq![], seq![]);
}

/// The bytes of the first `j` pieces start the bytes of all pieces.
proof fn lemma_flatten_prefix(ps: Seq<Seq<u8>>, j: int)
    requires
        0 <= j <= ps.len(),
    ensures
        flatten(ps.take(j)).len() <= flatten(ps).len(),
        flatten(ps).take(flatten(ps.take(j)).len() as int) == flatten(ps.take(j)),
    decreases ps.len(),
{
    if j == ps.len() {
        assert(ps.take(j) =~= ps);
        assert(flatten(ps).take(flatten(ps).len() as int) =~= flatten(ps));
    } else {
        let front = ps.drop_last();
        assert(ps.take(j) =~= front.take(j));
        lemma_flatten_prefix(front, j);
        let a = flatten(front);
        let b = flatten(front.take(j));
        assert((a + ps.last()).take(b.len() as int) =~= a.take(b.len() as int));
    }
}

/// The `j`-th piece stands in the buffer where the first `j` pieces end.
proof fn lemma_piece_layout(ps: Seq<Seq<u8>>, k: nat, j: int)
    requires
        0 <= j < ps.len(),
    ensures
        ({
            let d = flatten(ps) + zeros(k);
            let off = flatten(ps.take(j)).len() as int;
            let off2 = flatten(ps.take(j + 1)).len() as int;
            &&& off2 == off + ps[j].len()
            &&& off2 <= d.len()
            &&& d.skip(off) == ps[j] + d.skip(off2)
        }),
{
    let d = flatten(ps) + zeros(k);
    let off = flatten(ps.take(j)).len() as int;
    let y = ps[j];
    let next = flatten(ps.take(j + 1));
    assert(ps.take(j + 1).drop_last() =~= ps.take(j));
    assert(next == flatten(ps.take(j)) + y);
    lemma_flatten_prefix(ps, j + 1);
    let off2 = next.len() as int;
    assert(d.take(off2) =~= flatten(ps).take(off2));
    assert forall|i: int| 0 <= i < y.len() implies d.skip(off)[i] == y[i] by {
        assert(d.take(off2)[off + i] == next[off + i]);
    }
    assert(d.skip(off) =~= y + d.skip(off2));
}

/// The `j`-th piece reads, where the first `j` pieces end, as its entry.
proof fn lemma_piece_entry(ps: Seq<Seq<u8>>, k: nat, j: int)
    requires
        0 <= j < ps.len(),
        complete_entry(ps[j]),
    ensures
        ({
            let d = flatten(ps) + zeros(k);
            let off = flatten(ps.take(j)).len() as int;
            &&& off < d.len()
            &&& d[off] != 0
            &&& flatten(ps.take(j + 1)).len() == off + ps[j].len()
            &&& spec_parse_entry(d, off) == Ok::<(AdsLogEntryModel, int), AdsErrorModel>(
                (entry_of(ps[j]), off + ps[j].len()),
            )
        }),
{
    let d = flatten(ps) + zeros(k);
    let off = flatten(ps.take(j)).len() as int;
    let off2 = flatten(ps.take(j + 1)).len() as int;
    let y = ps[j];
    lemma_piece_layout(ps, k, j);
    assert(d[off] == y[0]) by {
        assert(d.skip(off)[0] == (y + d.skip(off2))[0]);
    }
    lemma_tail_entry(d, off, 0);
    lemma_ext_entry(y, d.skip(off2));
}

/// Reading all entries from the `j`-th piece on gives the entries of all
/// pieces.
proof fn lemma_read_pieces(ps: Seq<Seq<u8>>, k: nat, j: int)
    requires
        0 <= j <= ps.len(),
        forall|i: int| 0 <= i < ps.len() ==> complete_entry(#[trigger] ps[i]),
    ensures
        spec_parse_all_from(
            flatten(ps) + zeros(k),
            flatten(ps.take(j)).len() as int,
            ps.take(j).map_values(|y: Seq<u8>| entry_of(y)),
        ) == Ok::<Seq<AdsLogEntryModel>, AdsErrorModel>(
            ps.map_values(|y: Seq<u8>| entry_of(y)),
        ),
    decreases ps.len() - j,
{
    let d = flatten(ps) + zeros(k);
    let off = flatten(ps.take(j)).len() as int;
    let acc = ps.take(j).map_values(|y: Seq<u8>| entry_of(y));
    if j == ps.len() {
        assert(ps.take(j) =~= ps);
        assert(acc =~= ps.map_values(|y: Seq<u8>| entry_of(y)));
        if k > 0 {
            assert(d[off] == zeros(k)[0]);
        }
    } else {
        lemma_piece_entry(ps, k, j);
        assert(ps.take(j + 1).map_values(|y: Seq<u8>| entry_of(y)) =~= acc.push(entry_of(ps[j])));
        lemma_read_pieces(ps, k, j + 1);
    }
}

/// Complete entries laid one after another, then any zero padding, read
/// back as the list of those entries, in order (within the size limit).
pub proof fn law_entries_read_in_order(ps: Seq<Seq<u8>>, k: nat)
    requires
        forall|i: int| 0 <= i < ps.len() ==> complete_entry(#[trigger] ps[i]),
        (flatten(ps) + zeros(k)).len() <= MAX_MESSAGE_SIZE,
    ensures
        spec_parse_all(flatten(ps) + zeros(k)) == Ok::<Seq<AdsLogEntryModel>, AdsErrorModel>(
            ps.map_values(|y: Seq<u8>| entry_of(y)),
        ),
{
    assert(ps.take(0) =~= Seq::<Seq<u8>>::empty());
    assert(ps.take(0).map_values(|y: Seq<u8>| entry_of(y)) =~= Seq::<AdsLogEntryModel>::empty());
    lemma_read_pieces(ps, k, 0);
}

/// A complete entry followed by an entry that fails to read gives just the
/// first entry, without error (within the size limit).
pub proof fn law_bad_entry_after_good_one(y: Seq<u8>, q: Seq<u8>)
    requires
        complete_entry(y),
        q.len() > 0,
        q[0] != 0,
        spec_parse_entry(q, 0) is Err,
        (y + q).len() <= MAX_MESSAGE_SIZE,
    ensures
        spec_parse_all(y + q) == Ok::<Seq<AdsLogEntryModel>, AdsErrorModel>(seq![entry_of(y)]),
{
    let d = y + q;
    lemma_ext_entry(y, q);
    assert(d.skip(y.len() as int) =~= q);
    lemma_tail_entry(d, y.len() as int, 0);
    assert(d[0] == y[0]);
    assert(d[y.len() as int] == q[0]);
    let e = entry_of(y);
    let n = y.len() as int;
    assert(spec_parse_entry(d, 0) == Ok::<(AdsLogEntryModel, int), AdsErrorModel>((e, n)));
    assert(spec_parse_entry(d, n) is Err);
    assert(spec_parse_all_from(d, n, seq![e]) == Ok::<Seq<AdsLogEntryModel>, AdsErrorModel>(
        seq![e],
    ));
    assert(Seq::<AdsLogEntryModel>::empty().push(e) =~= seq![e]);
    assert(spec_parse_all_from(d, 0, seq![]) == spec_parse_all_from(d, n, seq![e]));
}

} // verus!
