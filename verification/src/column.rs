//! Column-chunk encodings shared by every record type.
//!
//! A column chunk is the contiguous run of bytes holding one column of one
//! row group. Required columns store their values densely; optional columns
//! store a presence vector (one byte per row, `1` present, `0` null)
//! followed by the dense array of the present values only. Each writer
//! appends exactly the bytes the matching spec function describes, and each
//! parser's contract inverts it: whenever the reader sits on such an
//! encoding, the parser returns exactly the values it encodes.

use vstd::prelude::*;
use vstd::bytes::*;
use vstd::slice::slice_to_vec;

use crate::errors::DecodeError;
use crate::wire::{at, lemma_at_prefix, lemma_at_split, rd_wf, write_bytes, write_u32, write_u64, write_u8, ByteReader};

verus! {

// ---------------------------------------------------------------------------
// Spec encodings
// ---------------------------------------------------------------------------

/// View of a sequence of owned byte strings.
pub open spec fn bytes_views(s: Seq<Vec<u8>>) -> Seq<Seq<u8>> {
    s.map_values(|v: Vec<u8>| v@)
}

/// View of a sequence of optional owned byte strings.
pub open spec fn opt_bytes_views(s: Seq<Option<Vec<u8>>>) -> Seq<Option<Seq<u8>>> {
    s.map_values(
        |o: Option<Vec<u8>>|
            match o {
                Some(v) => Some(v@),
                None => None,
            },
    )
}

/// Which rows of an optional column are present.
pub open spec fn presence_of<A>(rows: Seq<Option<A>>) -> Seq<bool> {
    rows.map_values(|o: Option<A>| o is Some)
}

/// One byte per row: `1` for a present value, `0` for a null.
pub open spec fn presence_bytes(p: Seq<bool>) -> Seq<u8> {
    p.map_values(
        |b: bool|
            if b {
                1u8
            } else {
                0u8
            },
    )
}

/// The dense array of an optional column: the present values in row order.
pub open spec fn dense<A>(rows: Seq<Option<A>>) -> Seq<A>
    decreases rows.len(),
{
    if rows.len() == 0 {
        Seq::empty()
    } else {
        match rows[0] {
            Some(v) => seq![v] + dense(rows.drop_first()),
            None => dense(rows.drop_first()),
        }
    }
}

/// How many rows of an optional column are present.
pub open spec fn count_trues(p: Seq<bool>) -> nat
    decreases p.len(),
{
    if p.len() == 0 {
        0
    } else {
        (if p[0] {
            1nat
        } else {
            0nat
        }) + count_trues(p.drop_first())
    }
}

/// Fixed-width values stored back to back.
pub open spec fn enc_fixed(vals: Seq<Seq<u8>>) -> Seq<u8>
    decreases vals.len(),
{
    if vals.len() == 0 {
        Seq::empty()
    } else {
        vals[0] + enc_fixed(vals.drop_first())
    }
}

/// Variable-length values, each behind a little-endian length prefix.
pub open spec fn enc_var(vals: Seq<Seq<u8>>) -> Seq<u8>
    decreases vals.len(),
{
    if vals.len() == 0 {
        Seq::empty()
    } else {
        spec_u32_to_le_bytes(vals[0].len() as u32) + vals[0] + enc_var(vals.drop_first())
    }
}

/// 32-bit physical values stored back to back.
pub open spec fn enc_u32s(vals: Seq<u32>) -> Seq<u8>
    decreases vals.len(),
{
    if vals.len() == 0 {
        Seq::empty()
    } else {
        spec_u32_to_le_bytes(vals[0]) + enc_u32s(vals.drop_first())
    }
}

/// 64-bit physical values stored back to back.
pub open spec fn enc_u64s(vals: Seq<u64>) -> Seq<u8>
    decreases vals.len(),
{
    if vals.len() == 0 {
        Seq::empty()
    } else {
        spec_u64_to_le_bytes(vals[0]) + enc_u64s(vals.drop_first())
    }
}

/// A required fixed-width column chunk.
pub open spec fn fixed_col_bytes(vals: Seq<Seq<u8>>) -> Seq<u8> {
    enc_fixed(vals)
}

/// An optional fixed-width column chunk: presence vector, then dense values.
pub open spec fn opt_fixed_col_bytes(rows: Seq<Option<Seq<u8>>>) -> Seq<u8> {
    presence_bytes(presence_of(rows)) + enc_fixed(dense(rows))
}

/// A required variable-length column chunk.
pub open spec fn var_col_bytes(vals: Seq<Seq<u8>>) -> Seq<u8> {
    enc_var(vals)
}

/// An optional 32-bit column chunk: presence vector, then dense values.
pub open spec fn opt_u32_col_bytes(rows: Seq<Option<u32>>) -> Seq<u8> {
    presence_bytes(presence_of(rows)) + enc_u32s(dense(rows))
}

/// A required 64-bit column chunk.
pub open spec fn u64_col_bytes(vals: Seq<u64>) -> Seq<u8> {
    enc_u64s(vals)
}

// ---------------------------------------------------------------------------
// Lemmas about the spec encodings
// ---------------------------------------------------------------------------

/// Appending one value extends a fixed-width encoding on the right.
pub proof fn lemma_enc_fixed_push(vals: Seq<Seq<u8>>, v: Seq<u8>)
    ensures
        enc_fixed(vals.push(v)) == enc_fixed(vals) + v,
    decreases vals.len(),
{
    reveal_with_fuel(enc_fixed, 3);
    if vals.len() == 0 {
        assert(vals.push(v)[0] == v);
        assert(vals.push(v).drop_first() =~= Seq::<Seq<u8>>::empty());
        assert(enc_fixed(vals.push(v)) =~= enc_fixed(vals) + v);
    } else {
        assert(vals.push(v)[0] == vals[0]);
        assert(vals.push(v).drop_first() =~= vals.drop_first().push(v));
        lemma_enc_fixed_push(vals.drop_first(), v);
        assert(enc_fixed(vals.push(v)) =~= enc_fixed(vals) + v);
    }
}

/// Appending one value extends a variable-length encoding on the right.
pub proof fn lemma_enc_var_push(vals: Seq<Seq<u8>>, v: Seq<u8>)
    ensures
        enc_var(vals.push(v)) == enc_var(vals) + spec_u32_to_le_bytes(v.len() as u32) + v,
    decreases vals.len(),
{
    reveal_with_fuel(enc_var, 3);
    if vals.len() == 0 {
        assert(vals.push(v)[0] == v);
        assert(vals.push(v).drop_first() =~= Seq::<Seq<u8>>::empty());
        assert(enc_var(vals.push(v)) =~= enc_var(vals) + spec_u32_to_le_bytes(v.len() as u32) + v);
    } else {
        assert(vals.push(v)[0] == vals[0]);
        assert(vals.push(v).drop_first() =~= vals.drop_first().push(v));
        lemma_enc_var_push(vals.drop_first(), v);
        assert(enc_var(vals.push(v)) =~= enc_var(vals) + spec_u32_to_le_bytes(v.len() as u32) + v);
    }
}

/// Appending one value extends a 32-bit encoding on the right.
pub proof fn lemma_enc_u32s_push(vals: Seq<u32>, v: u32)
    ensures
        enc_u32s(vals.push(v)) == enc_u32s(vals) + spec_u32_to_le_bytes(v),
    decreases vals.len(),
{
    reveal_with_fuel(enc_u32s, 3);
    if vals.len() == 0 {
        assert(vals.push(v)[0] == v);
        assert(vals.push(v).drop_first() =~= Seq::<u32>::empty());
        assert(enc_u32s(vals.push(v)) =~= enc_u32s(vals) + spec_u32_to_le_bytes(v));
    } else {
        assert(vals.push(v)[0] == vals[0]);
        assert(vals.push(v).drop_first() =~= vals.drop_first().push(v));
        lemma_enc_u32s_push(vals.drop_first(), v);
        assert(enc_u32s(vals.push(v)) =~= enc_u32s(vals) + spec_u32_to_le_bytes(v));
    }
}

/// Appending one value extends a 64-bit encoding on the right.
pub proof fn lemma_enc_u64s_push(vals: Seq<u64>, v: u64)
    ensures
        enc_u64s(vals.push(v)) == enc_u64s(vals) + spec_u64_to_le_bytes(v),
    decreases vals.len(),
{
    reveal_with_fuel(enc_u64s, 3);
    if vals.len() == 0 {
        assert(vals.push(v)[0] == v);
        assert(vals.push(v).drop_first() =~= Seq::<u64>::empty());
        assert(enc_u64s(vals.push(v)) =~= enc_u64s(vals) + spec_u64_to_le_bytes(v));
    } else {
        assert(vals.push(v)[0] == vals[0]);
        assert(vals.push(v).drop_first() =~= vals.drop_first().push(v));
        lemma_enc_u64s_push(vals.drop_first(), v);
        assert(enc_u64s(vals.push(v)) =~= enc_u64s(vals) + spec_u64_to_le_bytes(v));
    }
}

/// Appending one row extends the dense array by its value, when present.
pub proof fn lemma_dense_push<A>(rows: Seq<Option<A>>, o: Option<A>)
    ensures
        dense(rows.push(o)) == match o {
            Some(v) => dense(rows).push(v),
            None => dense(rows),
        },
    decreases rows.len(),
{
    reveal_with_fuel(dense, 3);
    if rows.len() == 0 {
        assert(rows.push(o)[0] == o);
        assert(rows.push(o).drop_first() =~= Seq::<Option<A>>::empty());
        match o {
            Some(v) => {
                assert(dense(rows.push(o)) =~= dense(rows).push(v));
            },
            None => {
                assert(dense(rows.push(o)) =~= dense(rows));
            },
        }
    } else {
        assert(rows.push(o)[0] == rows[0]);
        assert(rows.push(o).drop_first() =~= rows.drop_first().push(o));
        lemma_dense_push(rows.drop_first(), o);
        match o {
            Some(v) => {
                assert(dense(rows.push(o)) =~= dense(rows).push(v));
            },
            None => {
                assert(dense(rows.push(o)) =~= dense(rows));
            },
        }
    }
}

/// The dense array is as long as the count of present rows.
pub proof fn lemma_dense_len_is_count<A>(rows: Seq<Option<A>>)
    ensures
        dense(rows).len() == count_trues(presence_of(rows)),
    decreases rows.len(),
{
    if rows.len() == 0 {
        assert(presence_of(rows).len() == 0);
    } else {
        lemma_dense_len_is_count(rows.drop_first());
        assert(presence_of(rows).drop_first() =~= presence_of(rows.drop_first()));
        assert(presence_of(rows)[0] == (rows[0] is Some));
    }
}

/// When every present value has width `w`, so does every dense value.
pub proof fn lemma_dense_widths(rows: Seq<Option<Seq<u8>>>, w: int)
    requires
        forall|i: int| 0 <= i < rows.len() ==> (rows[i] is Some ==> rows[i]->0.len() == w),
    ensures
        forall|j: int| 0 <= j < dense(rows).len() ==> dense(rows)[j].len() == w,
    decreases rows.len(),
{
    if rows.len() != 0 {
        assert(forall|i: int|
            0 <= i < rows.drop_first().len() ==> (rows.drop_first()[i] is Some
                ==> rows.drop_first()[i]->0.len() == w));
        lemma_dense_widths(rows.drop_first(), w);
        if rows[0] is Some {
            assert(rows[0]->0.len() == w);
            assert(dense(rows) == seq![rows[0]->0] + dense(rows.drop_first()));
            assert forall|j: int| 0 <= j < dense(rows).len() implies dense(rows)[j].len() == w by {
                if j > 0 {
                    assert(dense(rows)[j] == dense(rows.drop_first())[j - 1]);
                }
            }
        } else {
            assert(dense(rows) == dense(rows.drop_first()));
        }
    }
}

/// The length of a fixed-width encoding of uniform width `w`.
pub proof fn lemma_enc_fixed_len(vals: Seq<Seq<u8>>, w: int)
    requires
        forall|i: int| 0 <= i < vals.len() ==> vals[i].len() == w,
    ensures
        enc_fixed(vals).len() == vals.len() * w,
    decreases vals.len(),
{
    if vals.len() == 0 {
    } else {
        assert(forall|i: int| 0 <= i < vals.drop_first().len() ==> vals.drop_first()[i].len() == w);
        lemma_enc_fixed_len(vals.drop_first(), w);
        assert(w + (vals.len() - 1) * w == vals.len() * w) by (nonlinear_arith);
    }
}

/// Two optional sequences with the same presence and the same dense array
/// are equal.
pub proof fn lemma_opt_seq_ext<A>(s1: Seq<Option<A>>, s2: Seq<Option<A>>)
    requires
        s1.len() == s2.len(),
        presence_of(s1) =~= presence_of(s2),
        dense(s1) =~= dense(s2),
    ensures
        s1 =~= s2,
    decreases s1.len(),
{
    if s1.len() != 0 {
        assert(presence_of(s1)[0] == (s1[0] is Some));
        assert(presence_of(s2)[0] == (s2[0] is Some));
        assert(presence_of(s1.drop_first()) =~= presence_of(s1).drop_first());
        assert(presence_of(s2.drop_first()) =~= presence_of(s2).drop_first());
        if s1[0] is Some {
            assert(dense(s1) =~= seq![s1[0]->0] + dense(s1.drop_first()));
            assert(dense(s2) =~= seq![s2[0]->0] + dense(s2.drop_first()));
            assert(s1[0]->0 == dense(s1)[0]);
            assert(s2[0]->0 == dense(s2)[0]);
            assert(dense(s1.drop_first()) =~= dense(s1).drop_first());
            assert(dense(s2.drop_first()) =~= dense(s2).drop_first());
            lemma_opt_seq_ext(s1.drop_first(), s2.drop_first());
            assert(s1[0] == s2[0]);
        } else {
            assert(dense(s1) =~= dense(s1.drop_first()));
            assert(dense(s2) =~= dense(s2.drop_first()));
            lemma_opt_seq_ext(s1.drop_first(), s2.drop_first());
            assert(s1[0] == s2[0]);
        }
        assert forall|i: int| 0 <= i < s1.len() implies s1[i] == s2[i] by {
            if i > 0 {
                assert(s1.drop_first()[i - 1] == s2.drop_first()[i - 1]);
            }
        }
    }
}


/// Null handling: the presence vector of an optional column chunk marks
/// exactly the rows whose value is present — one byte per row, `1` for
/// present and `0` for null, never an in-band sentinel — and the dense
/// array holds exactly as many values as there are present rows.
pub proof fn lemma_presence_marks_nulls(rows: Seq<Option<Seq<u8>>>, i: int)
    requires
        0 <= i < rows.len(),
    ensures
        opt_fixed_col_bytes(rows)[i] == (if rows[i] is Some {
            1u8
        } else {
            0u8
        }),
        dense(rows).len() == count_trues(presence_of(rows)),
    {
    lemma_dense_len_is_count(rows);
    assert(presence_bytes(presence_of(rows))[i] == (if rows[i] is Some {
        1u8
    } else {
        0u8
    }));
}

// ---------------------------------------------------------------------------
// Small exec helpers
// ---------------------------------------------------------------------------

/// A fresh copy of an owned byte string.
pub fn copy_bytes(v: &Vec<u8>) -> (r: Vec<u8>)
    ensures
        r@ == v@,
{
    slice_to_vec(v.as_slice())
}

/// Count the raised flags.
pub fn count_flags(flags: &Vec<bool>) -> (c: usize)
    ensures
        c == count_trues(flags@),
{
    let n = flags.len();
    let mut c: usize = 0;
    let mut i: usize = 0;
    while i < n
        invariant
            i <= n,
            n == flags@.len(),
            c == count_trues(flags@.take(i as int)),
            c <= i,
        decreases n - i,
    {
        proof {
            lemma_count_trues_push(flags@.take(i as int), flags@[i as int]);
            assert(flags@.take(i + 1) =~= flags@.take(i as int).push(flags@[i as int]));
        }
        if flags[i] {
            c = c + 1;
        }
        i = i + 1;
    }
    proof {
        assert(flags@.take(n as int) =~= flags@);
    }
    c
}

/// Appending one flag extends the count by at most one.
pub proof fn lemma_count_trues_push(p: Seq<bool>, b: bool)
    ensures
        count_trues(p.push(b)) == count_trues(p) + (if b {
            1nat
        } else {
            0nat
        }),
    decreases p.len(),
{
    reveal_with_fuel(count_trues, 3);
    if p.len() == 0 {
        assert(p.push(b)[0] == b);
        assert(p.push(b).drop_first() =~= Seq::<bool>::empty());
    } else {
        assert(p.push(b)[0] == p[0]);
        assert(p.push(b).drop_first() =~= p.drop_first().push(b));
        lemma_count_trues_push(p.drop_first(), b);
    }
}

// ---------------------------------------------------------------------------
// Writers
// ---------------------------------------------------------------------------

/// Append a required fixed-width column chunk.
pub fn write_fixed_col(vals: &Vec<Vec<u8>>, out: &mut Vec<u8>)
    ensures
        final(out)@ == old(out)@ + fixed_col_bytes(bytes_views(vals@)),
{
    let n = vals.len();
    let mut i: usize = 0;
    while i < n
        invariant
            i <= n,
            n == vals@.len(),
            out@ == old(out)@ + enc_fixed(bytes_views(vals@.take(i as int))),
        decreases n - i,
    {
        write_bytes(out, vals[i].as_slice());
        proof {
            lemma_enc_fixed_push(bytes_views(vals@.take(i as int)), vals@[i as int]@);
            assert(bytes_views(vals@.take(i + 1)) =~= bytes_views(vals@.take(i as int)).push(
                vals@[i as int]@,
            ));
            assert(out@ =~= old(out)@ + enc_fixed(bytes_views(vals@.take(i + 1))));
        }
        i = i + 1;
    }
    proof {
        assert(vals@.take(n as int) =~= vals@);
    }
}

/// Append the presence vector of an optional column.
fn write_presence_of_bytes(vals: &Vec<Option<Vec<u8>>>, out: &mut Vec<u8>)
    ensures
        final(out)@ == old(out)@ + presence_bytes(presence_of(opt_bytes_views(vals@))),
{
    let n = vals.len();
    let mut i: usize = 0;
    while i < n
        invariant
            i <= n,
            n == vals@.len(),
            out@ == old(out)@ + presence_bytes(presence_of(opt_bytes_views(vals@.take(i as int)))),
        decreases n - i,
    {
        let b: u8 = if vals[i].is_some() {
            1
        } else {
            0
        };
        write_u8(out, b);
        proof {
            assert(presence_bytes(presence_of(opt_bytes_views(vals@.take(i + 1)))) =~= presence_bytes(
                presence_of(opt_bytes_views(vals@.take(i as int))),
            ).push(b));
            assert(out@ =~= old(out)@ + presence_bytes(
                presence_of(opt_bytes_views(vals@.take(i + 1))),
            ));
        }
        i = i + 1;
    }
    proof {
        assert(vals@.take(n as int) =~= vals@);
    }
}

/// Append an optional fixed-width column chunk: presence, then dense values.
pub fn write_opt_fixed_col(vals: &Vec<Option<Vec<u8>>>, out: &mut Vec<u8>)
    ensures
        final(out)@ == old(out)@ + opt_fixed_col_bytes(opt_bytes_views(vals@)),
{
    write_presence_of_bytes(vals, out);
    let ghost mid = out@;
    let n = vals.len();
    let mut i: usize = 0;
    while i < n
        invariant
            i <= n,
            n == vals@.len(),
            out@ == mid + enc_fixed(dense(opt_bytes_views(vals@.take(i as int)))),
        decreases n - i,
    {
        proof {
            assert(opt_bytes_views(vals@.take(i + 1)) =~= opt_bytes_views(
                vals@.take(i as int),
            ).push(
                match vals@[i as int] {
                    Some(v) => Some(v@),
                    None => None,
                },
            ));
        }
        match &vals[i] {
            Some(v) => {
                write_bytes(out, v.as_slice());
                proof {
                    lemma_dense_push(
                        opt_bytes_views(vals@.take(i as int)),
                        Some(vals@[i as int]->0@),
                    );
                    lemma_enc_fixed_push(
                        dense(opt_bytes_views(vals@.take(i as int))),
                        vals@[i as int]->0@,
                    );
                    assert(out@ =~= mid + enc_fixed(dense(opt_bytes_views(vals@.take(i + 1)))));
                }
            },
            None => {
                proof {
                    lemma_dense_push(
                        opt_bytes_views(vals@.take(i as int)),
                        None::<Seq<u8>>,
                    );
                    assert(out@ =~= mid + enc_fixed(dense(opt_bytes_views(vals@.take(i + 1)))));
                }
            },
        }
        i = i + 1;
    }
    proof {
        assert(vals@.take(n as int) =~= vals@);
        assert(out@ =~= old(out)@ + opt_fixed_col_bytes(opt_bytes_views(vals@)));
    }
}

/// Append a required variable-length column chunk.
pub fn write_var_col(vals: &Vec<Vec<u8>>, out: &mut Vec<u8>)
    requires
        forall|i: int| 0 <= i < vals@.len() ==> vals@[i]@.len() <= u32::MAX,
    ensures
        final(out)@ == old(out)@ + var_col_bytes(bytes_views(vals@)),
{
    let n = vals.len();
    let mut i: usize = 0;
    while i < n
        invariant
            i <= n,
            n == vals@.len(),
            forall|k: int| 0 <= k < vals@.len() ==> vals@[k]@.len() <= u32::MAX,
            out@ == old(out)@ + enc_var(bytes_views(vals@.take(i as int))),
        decreases n - i,
    {
        let v_len: usize = vals[i].len();
        write_u32(out, v_len as u32);
        write_bytes(out, vals[i].as_slice());
        proof {
            lemma_enc_var_push(bytes_views(vals@.take(i as int)), vals@[i as int]@);
            assert(bytes_views(vals@.take(i + 1)) =~= bytes_views(vals@.take(i as int)).push(
                vals@[i as int]@,
            ));
            assert(out@ =~= old(out)@ + enc_var(bytes_views(vals@.take(i + 1))));
        }
        i = i + 1;
    }
    proof {
        assert(vals@.take(n as int) =~= vals@);
    }
}

/// Append an optional 32-bit column chunk: presence, then dense values.
pub fn write_opt_u32_col(vals: &Vec<Option<u32>>, out: &mut Vec<u8>)
    ensures
        final(out)@ == old(out)@ + opt_u32_col_bytes(vals@),
{
    let n = vals.len();
    let mut i: usize = 0;
    while i < n
        invariant
            i <= n,
            n == vals@.len(),
            out@ == old(out)@ + presence_bytes(presence_of(vals@.take(i as int))),
        decreases n - i,
    {
        let b: u8 = if vals[i].is_some() {
            1
        } else {
            0
        };
        write_u8(out, b);
        proof {
            assert(presence_bytes(presence_of(vals@.take(i + 1))) =~= presence_bytes(
                presence_of(vals@.take(i as int)),
            ).push(b));
            assert(out@ =~= old(out)@ + presence_bytes(presence_of(vals@.take(i + 1))));
        }
        i = i + 1;
    }
    proof {
        assert(vals@.take(n as int) =~= vals@);
    }
    let ghost mid = out@;
    let mut i: usize = 0;
    while i < n
        invariant
            i <= n,
            n == vals@.len(),
            out@ == mid + enc_u32s(dense(vals@.take(i as int))),
        decreases n - i,
    {
        proof {
            assert(vals@.take(i + 1) =~= vals@.take(i as int).push(vals@[i as int]));
        }
        match vals[i] {
            Some(v) => {
                write_u32(out, v);
                proof {
                    lemma_dense_push(vals@.take(i as int), Some(vals@[i as int]->0));
                    lemma_enc_u32s_push(dense(vals@.take(i as int)), vals@[i as int]->0);
                    assert(out@ =~= mid + enc_u32s(dense(vals@.take(i + 1))));
                }
            },
            None => {
                proof {
                    lemma_dense_push(vals@.take(i as int), None::<u32>);
                    assert(out@ =~= mid + enc_u32s(dense(vals@.take(i + 1))));
                }
            },
        }
        i = i + 1;
    }
    proof {
        assert(vals@.take(n as int) =~= vals@);
        assert(out@ =~= old(out)@ + opt_u32_col_bytes(vals@));
    }
}

/// Append a required 64-bit column chunk.
pub fn write_u64_col(vals: &Vec<u64>, out: &mut Vec<u8>)
    ensures
        final(out)@ == old(out)@ + u64_col_bytes(vals@),
{
    let n = vals.len();
    let mut i: usize = 0;
    while i < n
        invariant
            i <= n,
            n == vals@.len(),
            out@ == old(out)@ + enc_u64s(vals@.take(i as int)),
        decreases n - i,
    {
        write_u64(out, vals[i]);
        proof {
            lemma_enc_u64s_push(vals@.take(i as int), vals@[i as int]);
            assert(vals@.take(i + 1) =~= vals@.take(i as int).push(vals@[i as int]));
            assert(out@ =~= old(out)@ + enc_u64s(vals@.take(i + 1)));
        }
        i = i + 1;
    }
    proof {
        assert(vals@.take(n as int) =~= vals@);
    }
}

// ---------------------------------------------------------------------------
// Parsers
//
// Each parser's main contract is conditional: whenever the reader sits on
// the encoding of some values (of the right count and shape), it returns
// exactly those values and consumes exactly their encoding. On any other
// input it may fail, and its failure refutes the existence of such values.
// ---------------------------------------------------------------------------

/// Parse a presence vector of `n` rows; any byte other than `0` or `1` is
/// rejected.
pub fn parse_presence(r: &mut ByteReader, n: usize) -> (res: Result<Vec<bool>, DecodeError>)
    requires
        rd_wf(*old(r)),
    ensures
        final(r).data@ == old(r).data@,
        rd_wf(*final(r)),
        res is Ok ==> res->Ok_0@.len() == n && final(r).pos == old(r).pos + n,
        forall|p: Seq<bool>|
            (p.len() == n && #[trigger] at(*old(r), presence_bytes(p))) ==> (res is Ok
                && res->Ok_0@ == p),
{
    let mut flags: Vec<bool> = Vec::new();
    let mut i: usize = 0;
    while i < n
        invariant
            i <= n,
            rd_wf(*r),
            r.data@ == old(r).data@,
            r.pos == old(r).pos + i,
            flags@.len() == i,
            forall|k: int|
                0 <= k < i ==> {
                    &&& old(r).data@[old(r).pos + k] == (if flags@[k] {
                        1u8
                    } else {
                        0u8
                    })
                },
        decreases n - i,
    {
        let b = match r.read_u8() {
            Ok(b) => b,
            Err(e) => {
                proof {
                    assert forall|p: Seq<bool>|
                        p.len() == n && #[trigger] at(*old(r), presence_bytes(p)) implies false by {
                        assert(presence_bytes(p).len() == n);
                    }
                }
                return Err(e);
            },
        };
        if b == 1 {
            flags.push(true);
        } else if b == 0 {
            flags.push(false);
        } else {
            proof {
                assert forall|p: Seq<bool>|
                    p.len() == n && #[trigger] at(*old(r), presence_bytes(p)) implies false by {
                    assert(old(r).data@.subrange(
                        old(r).pos as int,
                        old(r).pos + n,
                    )[i as int] == presence_bytes(p)[i as int]);
                }
            }
            return Err(DecodeError::Malformed);
        }
        i = i + 1;
    }
    proof {
        assert forall|p: Seq<bool>|
            p.len() == n && #[trigger] at(*old(r), presence_bytes(p)) implies flags@ == p by {
            assert forall|k: int| 0 <= k < n implies flags@[k] == p[k] by {
                assert(old(r).data@.subrange(
                    old(r).pos as int,
                    old(r).pos + n,
                )[k] == presence_bytes(p)[k]);
            }
            assert(flags@ =~= p);
        }
    }
    Ok(flags)
}

/// Parse `k` dense fixed-width values of width `w`.
pub fn parse_fixed_vals(r: &mut ByteReader, k: usize, w: usize) -> (res: Result<
    Vec<Vec<u8>>,
    DecodeError,
>)
    requires
        rd_wf(*old(r)),
    ensures
        final(r).data@ == old(r).data@,
        rd_wf(*final(r)),
        res is Ok ==> res->Ok_0@.len() == k && (forall|i: int|
            0 <= i < k ==> res->Ok_0@[i]@.len() == w),
        forall|vals: Seq<Seq<u8>>|
            (vals.len() == k && (forall|i: int| 0 <= i < vals.len() ==> vals[i].len() == w)
                && #[trigger] at(*old(r), enc_fixed(vals))) ==> (res is Ok && bytes_views(
                res->Ok_0@,
            ) == vals && final(r).pos == old(r).pos + enc_fixed(vals).len()),
    decreases k,
{
    if k == 0 {
        let out: Vec<Vec<u8>> = Vec::new();
        proof {
            assert forall|vals: Seq<Seq<u8>>|
                (vals.len() == 0 && #[trigger] at(*old(r), enc_fixed(vals))) implies bytes_views(
                out@,
            ) == vals by {
                assert(bytes_views(out@) =~= vals);
            }
        }
        return Ok(out);
    }
    let first = match r.read_bytes(w) {
        Ok(v) => v,
        Err(e) => {
            proof {
                assert forall|vals: Seq<Seq<u8>>|
                    (vals.len() == k && (forall|i: int| 0 <= i < vals.len() ==> vals[i].len() == w)
                        && #[trigger] at(*old(r), enc_fixed(vals))) implies false by {
                    assert(enc_fixed(vals) == vals[0] + enc_fixed(vals.drop_first()));
                    assert(enc_fixed(vals).len() >= w);
                }
            }
            return Err(e);
        },
    };
    let ghost r1 = *r;
    let rest = match parse_fixed_vals(r, k - 1, w) {
        Ok(v) => v,
        Err(e) => {
            proof {
                assert forall|vals: Seq<Seq<u8>>|
                    (vals.len() == k && (forall|i: int| 0 <= i < vals.len() ==> vals[i].len() == w)
                        && #[trigger] at(*old(r), enc_fixed(vals))) implies false by {
                    assert(enc_fixed(vals) == vals[0] + enc_fixed(vals.drop_first()));
                    lemma_at_split(*old(r), r1, vals[0], enc_fixed(vals.drop_first()));
                    assert(vals.drop_first().len() == k - 1);
                    assert(forall|i: int|
                        0 <= i < vals.drop_first().len() ==> vals.drop_first()[i].len() == w);
                    assert(at(r1, enc_fixed(vals.drop_first())));
                }
            }
            return Err(e);
        },
    };
    let mut out = rest;
    out.insert(0, first);
    proof {
        assert forall|vals: Seq<Seq<u8>>|
            (vals.len() == k && (forall|i: int| 0 <= i < vals.len() ==> vals[i].len() == w)
                && #[trigger] at(*old(r), enc_fixed(vals))) implies (bytes_views(out@) == vals
            && final(r).pos == old(r).pos + enc_fixed(vals).len()) by {
            assert(enc_fixed(vals) == vals[0] + enc_fixed(vals.drop_first()));
            lemma_at_split(*old(r), r1, vals[0], enc_fixed(vals.drop_first()));
            assert(first@ == vals[0]);
            assert(vals.drop_first().len() == k - 1);
            assert(forall|i: int|
                0 <= i < vals.drop_first().len() ==> vals.drop_first()[i].len() == w);
            assert(at(r1, enc_fixed(vals.drop_first())));
            assert(bytes_views(rest@) == vals.drop_first());
            assert forall|j: int| 0 <= j < vals.len() implies bytes_views(out@)[j] == vals[j] by {
                if j > 0 {
                    assert(bytes_views(rest@)[j - 1] == vals.drop_first()[j - 1]);
                }
            }
            assert(bytes_views(out@) =~= vals);
        }
    }
    Ok(out)
}

/// Parse `k` dense 32-bit physical values.
pub fn parse_u32_vals(r: &mut ByteReader, k: usize) -> (res: Result<Vec<u32>, DecodeError>)
    requires
        rd_wf(*old(r)),
    ensures
        final(r).data@ == old(r).data@,
        rd_wf(*final(r)),
        res is Ok ==> res->Ok_0@.len() == k,
        forall|vals: Seq<u32>|
            (vals.len() == k && #[trigger] at(*old(r), enc_u32s(vals))) ==> (res is Ok
                && res->Ok_0@ == vals && final(r).pos == old(r).pos + enc_u32s(vals).len()),
    decreases k,
{
    if k == 0 {
        let out: Vec<u32> = Vec::new();
        proof {
            assert forall|vals: Seq<u32>|
                (vals.len() == 0 && #[trigger] at(*old(r), enc_u32s(vals))) implies out@ == vals by {
                assert(out@ =~= vals);
            }
        }
        return Ok(out);
    }
    let first = match r.read_u32() {
        Ok(v) => v,
        Err(e) => {
            proof {
                assert forall|vals: Seq<u32>|
                    (vals.len() == k && #[trigger] at(*old(r), enc_u32s(vals))) implies false by {
                    assert(enc_u32s(vals) == spec_u32_to_le_bytes(vals[0]) + enc_u32s(
                        vals.drop_first(),
                    ));
                    lemma_auto_spec_u32_to_from_le_bytes();
                    assert(enc_u32s(vals).len() >= 4);
                }
            }
            return Err(e);
        },
    };
    let ghost r1 = *r;
    let rest = match parse_u32_vals(r, k - 1) {
        Ok(v) => v,
        Err(e) => {
            proof {
                assert forall|vals: Seq<u32>|
                    (vals.len() == k && #[trigger] at(*old(r), enc_u32s(vals))) implies false by {
                    assert(enc_u32s(vals) == spec_u32_to_le_bytes(vals[0]) + enc_u32s(
                        vals.drop_first(),
                    ));
                    lemma_auto_spec_u32_to_from_le_bytes();
                    lemma_at_split(*old(r), r1, spec_u32_to_le_bytes(vals[0]), enc_u32s(
                        vals.drop_first(),
                    ));
                    assert(at(r1, enc_u32s(vals.drop_first())));
                }
            }
            return Err(e);
        },
    };
    let mut out = rest;
    out.insert(0, first);
    proof {
        assert forall|vals: Seq<u32>|
            (vals.len() == k && #[trigger] at(*old(r), enc_u32s(vals))) implies (out@ == vals
            && final(r).pos == old(r).pos + enc_u32s(vals).len()) by {
            assert(enc_u32s(vals) == spec_u32_to_le_bytes(vals[0]) + enc_u32s(vals.drop_first()));
            lemma_auto_spec_u32_to_from_le_bytes();
            lemma_at_split(*old(r), r1, spec_u32_to_le_bytes(vals[0]), enc_u32s(vals.drop_first()));
            assert(first == vals[0]);
            assert(at(r1, enc_u32s(vals.drop_first())));
            assert(rest@ == vals.drop_first());
            assert(out@ =~= vals);
        }
    }
    Ok(out)
}

/// Parse `k` dense 64-bit physical values.
pub fn parse_u64_vals(r: &mut ByteReader, k: usize) -> (res: Result<Vec<u64>, DecodeError>)
    requires
        rd_wf(*old(r)),
    ensures
        final(r).data@ == old(r).data@,
        rd_wf(*final(r)),
        res is Ok ==> res->Ok_0@.len() == k,
        forall|vals: Seq<u64>|
            (vals.len() == k && #[trigger] at(*old(r), enc_u64s(vals))) ==> (res is Ok
                && res->Ok_0@ == vals && final(r).pos == old(r).pos + enc_u64s(vals).len()),
    decreases k,
{
    if k == 0 {
        let out: Vec<u64> = Vec::new();
        proof {
            assert forall|vals: Seq<u64>|
                (vals.len() == 0 && #[trigger] at(*old(r), enc_u64s(vals))) implies out@ == vals by {
                assert(out@ =~= vals);
            }
        }
        return Ok(out);
    }
    let first = match r.read_u64() {
        Ok(v) => v,
        Err(e) => {
            proof {
                assert forall|vals: Seq<u64>|
                    (vals.len() == k && #[trigger] at(*old(r), enc_u64s(vals))) implies false by {
                    assert(enc_u64s(vals) == spec_u64_to_le_bytes(vals[0]) + enc_u64s(
                        vals.drop_first(),
                    ));
                    lemma_auto_spec_u64_to_from_le_bytes();
                    assert(enc_u64s(vals).len() >= 8);
                }
            }
            return Err(e);
        },
    };
    let ghost r1 = *r;
    let rest = match parse_u64_vals(r, k - 1) {
        Ok(v) => v,
        Err(e) => {
            proof {
                assert forall|vals: Seq<u64>|
                    (vals.len() == k && #[trigger] at(*old(r), enc_u64s(vals))) implies false by {
                    assert(enc_u64s(vals) == spec_u64_to_le_bytes(vals[0]) + enc_u64s(
                        vals.drop_first(),
                    ));
                    lemma_auto_spec_u64_to_from_le_bytes();
                    lemma_at_split(*old(r), r1, spec_u64_to_le_bytes(vals[0]), enc_u64s(
                        vals.drop_first(),
                    ));
                    assert(at(r1, enc_u64s(vals.drop_first())));
                }
            }
            return Err(e);
        },
    };
    let mut out = rest;
    out.insert(0, first);
    proof {
        assert forall|vals: Seq<u64>|
            (vals.len() == k && #[trigger] at(*old(r), enc_u64s(vals))) implies (out@ == vals
            && final(r).pos == old(r).pos + enc_u64s(vals).len()) by {
            assert(enc_u64s(vals) == spec_u64_to_le_bytes(vals[0]) + enc_u64s(vals.drop_first()));
            lemma_auto_spec_u64_to_from_le_bytes();
            lemma_at_split(*old(r), r1, spec_u64_to_le_bytes(vals[0]), enc_u64s(vals.drop_first()));
            assert(first == vals[0]);
            assert(at(r1, enc_u64s(vals.drop_first())));
            assert(rest@ == vals.drop_first());
            assert(out@ =~= vals);
        }
    }
    Ok(out)
}

/// Parse `k` length-prefixed variable-length values.
pub fn parse_var_vals(r: &mut ByteReader, k: usize) -> (res: Result<Vec<Vec<u8>>, DecodeError>)
    requires
        rd_wf(*old(r)),
    ensures
        final(r).data@ == old(r).data@,
        rd_wf(*final(r)),
        res is Ok ==> res->Ok_0@.len() == k,
        forall|vals: Seq<Seq<u8>>|
            (vals.len() == k && (forall|i: int| 0 <= i < vals.len() ==> vals[i].len() <= u32::MAX)
                && #[trigger] at(*old(r), enc_var(vals))) ==> (res is Ok && bytes_views(res->Ok_0@)
                == vals && final(r).pos == old(r).pos + enc_var(vals).len()),
    decreases k,
{
    if k == 0 {
        let out: Vec<Vec<u8>> = Vec::new();
        proof {
            assert forall|vals: Seq<Seq<u8>>|
                (vals.len() == 0 && #[trigger] at(*old(r), enc_var(vals))) implies bytes_views(out@)
                == vals by {
                assert(bytes_views(out@) =~= vals);
            }
        }
        return Ok(out);
    }
    let len32 = match r.read_u32() {
        Ok(v) => v,
        Err(e) => {
            proof {
                assert forall|vals: Seq<Seq<u8>>|
                    (vals.len() == k && (forall|i: int|
                        0 <= i < vals.len() ==> vals[i].len() <= u32::MAX) && #[trigger] at(
                        *old(r),
                        enc_var(vals),
                    )) implies false by {
                    assert(enc_var(vals) == spec_u32_to_le_bytes(vals[0].len() as u32) + vals[0]
                        + enc_var(vals.drop_first()));
                    lemma_auto_spec_u32_to_from_le_bytes();
                    assert(enc_var(vals).len() >= 4);
                }
            }
            return Err(e);
        },
    };
    let ghost r1 = *r;
    let first = match r.read_bytes(len32 as usize) {
        Ok(v) => v,
        Err(e) => {
            proof {
                assert forall|vals: Seq<Seq<u8>>|
                    (vals.len() == k && (forall|i: int|
                        0 <= i < vals.len() ==> vals[i].len() <= u32::MAX) && #[trigger] at(
                        *old(r),
                        enc_var(vals),
                    )) implies false by {
                    assert(enc_var(vals) == spec_u32_to_le_bytes(vals[0].len() as u32) + (vals[0]
                        + enc_var(vals.drop_first())));
                    lemma_auto_spec_u32_to_from_le_bytes();
                    lemma_at_split(
                        *old(r),
                        r1,
                        spec_u32_to_le_bytes(vals[0].len() as u32),
                        vals[0] + enc_var(vals.drop_first()),
                    );
                    assert(len32 == vals[0].len() as u32);
                    assert(len32 as int == vals[0].len());
                    assert(at(r1, vals[0] + enc_var(vals.drop_first())));
                    assert((vals[0] + enc_var(vals.drop_first())).len() >= vals[0].len());
                }
            }
            return Err(e);
        },
    };
    let ghost r2 = *r;
    let rest = match parse_var_vals(r, k - 1) {
        Ok(v) => v,
        Err(e) => {
            proof {
                assert forall|vals: Seq<Seq<u8>>|
                    (vals.len() == k && (forall|i: int|
                        0 <= i < vals.len() ==> vals[i].len() <= u32::MAX) && #[trigger] at(
                        *old(r),
                        enc_var(vals),
                    )) implies false by {
                    assert(enc_var(vals) == spec_u32_to_le_bytes(vals[0].len() as u32) + (vals[0]
                        + enc_var(vals.drop_first())));
                    lemma_auto_spec_u32_to_from_le_bytes();
                    lemma_at_split(
                        *old(r),
                        r1,
                        spec_u32_to_le_bytes(vals[0].len() as u32),
                        vals[0] + enc_var(vals.drop_first()),
                    );
                    assert(len32 as int == vals[0].len());
                    lemma_at_split(r1, r2, vals[0], enc_var(vals.drop_first()));
                    assert(at(r2, enc_var(vals.drop_first())));
                    assert(forall|i: int|
                        0 <= i < vals.drop_first().len() ==> vals.drop_first()[i].len()
                            <= u32::MAX);
                }
            }
            return Err(e);
        },
    };
    let mut out = rest;
    out.insert(0, first);
    proof {
        assert forall|vals: Seq<Seq<u8>>|
            (vals.len() == k && (forall|i: int| 0 <= i < vals.len() ==> vals[i].len() <= u32::MAX)
                && #[trigger] at(*old(r), enc_var(vals))) implies (bytes_views(out@) == vals
            && final(r).pos == old(r).pos + enc_var(vals).len()) by {
            assert(enc_var(vals) == spec_u32_to_le_bytes(vals[0].len() as u32) + (vals[0] + enc_var(
                vals.drop_first(),
            )));
            lemma_auto_spec_u32_to_from_le_bytes();
            lemma_at_split(
                *old(r),
                r1,
                spec_u32_to_le_bytes(vals[0].len() as u32),
                vals[0] + enc_var(vals.drop_first()),
            );
            assert(len32 as int == vals[0].len());
            lemma_at_split(r1, r2, vals[0], enc_var(vals.drop_first()));
            assert(first@ == vals[0]);
            assert(at(r2, enc_var(vals.drop_first())));
            assert(forall|i: int|
                0 <= i < vals.drop_first().len() ==> vals.drop_first()[i].len() <= u32::MAX);
            assert(bytes_views(rest@) == vals.drop_first());
            assert forall|j: int| 0 <= j < vals.len() implies bytes_views(out@)[j] == vals[j] by {
                if j > 0 {
                    assert(bytes_views(rest@)[j - 1] == vals.drop_first()[j - 1]);
                }
            }
            assert(bytes_views(out@) =~= vals);
        }
    }
    Ok(out)
}

/// The count of trues splits over a prefix and the matching suffix.
pub proof fn lemma_count_trues_split(p: Seq<bool>, i: int)
    requires
        0 <= i <= p.len(),
    ensures
        count_trues(p) == count_trues(p.take(i)) + count_trues(p.skip(i)),
    decreases i,
{
    if i == 0 {
        assert(p.take(0) =~= Seq::<bool>::empty());
        assert(p.skip(0) =~= p);
    } else {
        lemma_count_trues_split(p, i - 1);
        assert(p.take(i) =~= p.take(i - 1).push(p[i - 1]));
        lemma_count_trues_push(p.take(i - 1), p[i - 1]);
        assert(p.skip(i - 1).len() > 0);
        assert(p.skip(i - 1)[0] == p[i - 1]);
        assert(p.skip(i - 1).drop_first() =~= p.skip(i));
        assert(count_trues(p.skip(i - 1)) == (if p[i - 1] {
            1nat
        } else {
            0nat
        }) + count_trues(p.skip(i)));
    }
}

/// Spread a dense value array back over its presence flags.
pub fn scatter_bytes(flags: &Vec<bool>, vals: &Vec<Vec<u8>>) -> (res: Vec<Option<Vec<u8>>>)
    requires
        count_trues(flags@) == vals@.len(),
    ensures
        res@.len() == flags@.len(),
        presence_of(opt_bytes_views(res@)) == flags@,
        dense(opt_bytes_views(res@)) == bytes_views(vals@),
{
    let n = flags.len();
    let vals_n = vals.len();
    let mut res: Vec<Option<Vec<u8>>> = Vec::new();
    let mut k: usize = 0;
    let mut i: usize = 0;
    proof {
        assert(flags@.skip(0) =~= flags@);
        assert(opt_bytes_views(res@) =~= Seq::<Option<Seq<u8>>>::empty());
        assert(presence_of(opt_bytes_views(res@)) =~= flags@.take(0));
        assert(dense(opt_bytes_views(res@)) =~= bytes_views(vals@).take(0));
    }
    while i < n
        invariant
            i <= n,
            n == flags@.len(),
            res@.len() == i,
            k <= vals_n,
            vals_n == vals@.len(),
            count_trues(flags@) == vals@.len(),
            presence_of(opt_bytes_views(res@)) =~= flags@.take(i as int),
            dense(opt_bytes_views(res@)) =~= bytes_views(vals@).take(k as int),
            k == count_trues(flags@.take(i as int)),
        decreases n - i,
    {
        proof {
            lemma_count_trues_split(flags@, i as int);
            assert(flags@.skip(i as int).len() > 0);
            assert(flags@.skip(i as int)[0] == flags@[i as int]);
            assert(flags@.skip(i as int).drop_first() =~= flags@.skip(i + 1));
            assert(count_trues(flags@.skip(i as int)) == (if flags@[i as int] {
                1nat
            } else {
                0nat
            }) + count_trues(flags@.skip(i + 1)));
            lemma_count_trues_push(flags@.take(i as int), flags@[i as int]);
            assert(flags@.take(i + 1) =~= flags@.take(i as int).push(flags@[i as int]));
        }
        let ghost prev = res@;
        if flags[i] {
            proof {
                assert(k < vals@.len());
            }
            let v = copy_bytes(&vals[k]);
            res.push(Some(v));
            proof {
                assert(opt_bytes_views(res@) =~= opt_bytes_views(prev).push(
                    Some(vals@[k as int]@),
                ));
                lemma_dense_push(opt_bytes_views(prev), Some(vals@[k as int]@));
                assert(presence_of(opt_bytes_views(res@)) =~= flags@.take(i + 1));
                assert(bytes_views(vals@).take(k + 1) =~= bytes_views(vals@).take(k as int).push(
                    vals@[k as int]@,
                ));
                assert(dense(opt_bytes_views(res@)) =~= bytes_views(vals@).take(k + 1));
            }
            k = k + 1;
        } else {
            res.push(None);
            proof {
                assert(opt_bytes_views(res@) =~= opt_bytes_views(prev).push(
                    None::<Seq<u8>>,
                ));
                lemma_dense_push(opt_bytes_views(prev), None::<Seq<u8>>);
                assert(presence_of(opt_bytes_views(res@)) =~= flags@.take(i + 1));
                assert(dense(opt_bytes_views(res@)) =~= bytes_views(vals@).take(k as int));
            }
        }
        i = i + 1;
    }
    proof {
        assert(flags@.take(n as int) =~= flags@);
        lemma_count_trues_split(flags@, n as int);
        assert(flags@.skip(n as int) =~= Seq::<bool>::empty());
        assert(k == vals@.len());
        assert(bytes_views(vals@).take(k as int) =~= bytes_views(vals@));
    }
    res
}

/// Spread a dense 32-bit value array back over its presence flags.
pub fn scatter_u32(flags: &Vec<bool>, vals: &Vec<u32>) -> (res: Vec<Option<u32>>)
    requires
        count_trues(flags@) == vals@.len(),
    ensures
        res@.len() == flags@.len(),
        presence_of(res@) == flags@,
        dense(res@) == vals@,
{
    let n = flags.len();
    let vals_n = vals.len();
    let mut res: Vec<Option<u32>> = Vec::new();
    let mut k: usize = 0;
    let mut i: usize = 0;
    proof {
        assert(presence_of(res@) =~= flags@.take(0));
        assert(dense(res@) =~= vals@.take(0));
    }
    while i < n
        invariant
            i <= n,
            n == flags@.len(),
            res@.len() == i,
            k <= vals_n,
            vals_n == vals@.len(),
            count_trues(flags@) == vals@.len(),
            presence_of(res@) =~= flags@.take(i as int),
            dense(res@) =~= vals@.take(k as int),
            k == count_trues(flags@.take(i as int)),
        decreases n - i,
    {
        proof {
            lemma_count_trues_split(flags@, i as int);
            assert(flags@.skip(i as int).len() > 0);
            assert(flags@.skip(i as int)[0] == flags@[i as int]);
            assert(flags@.skip(i as int).drop_first() =~= flags@.skip(i + 1));
            assert(count_trues(flags@.skip(i as int)) == (if flags@[i as int] {
                1nat
            } else {
                0nat
            }) + count_trues(flags@.skip(i + 1)));
            lemma_count_trues_push(flags@.take(i as int), flags@[i as int]);
            assert(flags@.take(i + 1) =~= flags@.take(i as int).push(flags@[i as int]));
        }
        let ghost prev = res@;
        if flags[i] {
            proof {
                assert(k < vals@.len());
            }
            res.push(Some(vals[k]));
            proof {
                assert(res@ =~= prev.push(Some(vals@[k as int])));
                lemma_dense_push(prev, Some(vals@[k as int]));
                assert(presence_of(res@) =~= flags@.take(i + 1));
                assert(vals@.take(k + 1) =~= vals@.take(k as int).push(vals@[k as int]));
                assert(dense(res@) =~= vals@.take(k + 1));
            }
            k = k + 1;
        } else {
            res.push(None);
            proof {
                assert(res@ =~= prev.push(None::<u32>));
                lemma_dense_push(prev, None::<u32>);
                assert(presence_of(res@) =~= flags@.take(i + 1));
                assert(dense(res@) =~= vals@.take(k as int));
            }
        }
        i = i + 1;
    }
    proof {
        assert(flags@.take(n as int) =~= flags@);
        lemma_count_trues_split(flags@, n as int);
        assert(flags@.skip(n as int) =~= Seq::<bool>::empty());
        assert(vals@.take(k as int) =~= vals@);
    }
    res
}

/// Parse an optional fixed-width column chunk of `n` rows.
pub fn parse_opt_fixed_col(r: &mut ByteReader, n: usize, w: usize) -> (res: Result<
    Vec<Option<Vec<u8>>>,
    DecodeError,
>)
    requires
        rd_wf(*old(r)),
    ensures
        final(r).data@ == old(r).data@,
        rd_wf(*final(r)),
        res is Ok ==> res->Ok_0@.len() == n,
        forall|rows: Seq<Option<Seq<u8>>>|
            (rows.len() == n && (forall|i: int|
                0 <= i < rows.len() ==> (rows[i] is Some ==> rows[i]->0.len() == w)) && #[trigger] at(
                *old(r),
                opt_fixed_col_bytes(rows),
            )) ==> (res is Ok && opt_bytes_views(res->Ok_0@) == rows && final(r).pos == old(r).pos
                + opt_fixed_col_bytes(rows).len()),
{
    let flags = match parse_presence(r, n) {
        Ok(f) => f,
        Err(e) => {
            proof {
                assert forall|rows: Seq<Option<Seq<u8>>>|
                    (rows.len() == n && (forall|i: int|
                        0 <= i < rows.len() ==> (rows[i] is Some ==> rows[i]->0.len() == w))
                        && #[trigger] at(*old(r), opt_fixed_col_bytes(rows))) implies false by {
                    let p = presence_of(rows);
                    lemma_at_prefix(*old(r), presence_bytes(p), enc_fixed(dense(rows)));
                    assert(at(*old(r), presence_bytes(p)));
                }
            }
            return Err(e);
        },
    };
    let ghost r1 = *r;
    let cnt = count_flags(&flags);
    let vals = match parse_fixed_vals(r, cnt, w) {
        Ok(v) => v,
        Err(e) => {
            proof {
                assert forall|rows: Seq<Option<Seq<u8>>>|
                    (rows.len() == n && (forall|i: int|
                        0 <= i < rows.len() ==> (rows[i] is Some ==> rows[i]->0.len() == w))
                        && #[trigger] at(*old(r), opt_fixed_col_bytes(rows))) implies false by {
                    let p = presence_of(rows);
                    lemma_at_split(*old(r), r1, presence_bytes(p), enc_fixed(dense(rows)));
                    assert(at(*old(r), presence_bytes(p)));
                    assert(flags@ == p);
                    lemma_dense_len_is_count(rows);
                    assert(cnt == dense(rows).len());
                    lemma_dense_widths(rows, w as int);
                    assert(at(r1, enc_fixed(dense(rows))));
                }
            }
            return Err(e);
        },
    };
    let out = scatter_bytes(&flags, &vals);
    proof {
        assert forall|rows: Seq<Option<Seq<u8>>>|
            (rows.len() == n && (forall|i: int|
                0 <= i < rows.len() ==> (rows[i] is Some ==> rows[i]->0.len() == w)) && #[trigger] at(
                *old(r),
                opt_fixed_col_bytes(rows),
            )) implies (opt_bytes_views(out@) == rows && final(r).pos == old(r).pos
            + opt_fixed_col_bytes(rows).len()) by {
            let p = presence_of(rows);
            lemma_at_split(*old(r), r1, presence_bytes(p), enc_fixed(dense(rows)));
            assert(at(*old(r), presence_bytes(p)));
            assert(flags@ == p);
            lemma_dense_len_is_count(rows);
            assert(cnt == dense(rows).len());
            lemma_dense_widths(rows, w as int);
            assert(at(r1, enc_fixed(dense(rows))));
            assert(bytes_views(vals@) == dense(rows));
            lemma_opt_seq_ext(opt_bytes_views(out@), rows);
        }
    }
    Ok(out)
}

/// Parse an optional 32-bit column chunk of `n` rows.
pub fn parse_opt_u32_col(r: &mut ByteReader, n: usize) -> (res: Result<
    Vec<Option<u32>>,
    DecodeError,
>)
    requires
        rd_wf(*old(r)),
    ensures
        final(r).data@ == old(r).data@,
        rd_wf(*final(r)),
        res is Ok ==> res->Ok_0@.len() == n,
        forall|rows: Seq<Option<u32>>|
            (rows.len() == n && #[trigger] at(*old(r), opt_u32_col_bytes(rows))) ==> (res is Ok
                && res->Ok_0@ == rows && final(r).pos == old(r).pos + opt_u32_col_bytes(
                rows,
            ).len()),
{
    let flags = match parse_presence(r, n) {
        Ok(f) => f,
        Err(e) => {
            proof {
                assert forall|rows: Seq<Option<u32>>|
                    (rows.len() == n && #[trigger] at(*old(r), opt_u32_col_bytes(rows))) implies false by {
                    let p = presence_of(rows);
                    lemma_at_prefix(*old(r), presence_bytes(p), enc_u32s(dense(rows)));
                    assert(at(*old(r), presence_bytes(p)));
                }
            }
            return Err(e);
        },
    };
    let ghost r1 = *r;
    let cnt = count_flags(&flags);
    let vals = match parse_u32_vals(r, cnt) {
        Ok(v) => v,
        Err(e) => {
            proof {
                assert forall|rows: Seq<Option<u32>>|
                    (rows.len() == n && #[trigger] at(*old(r), opt_u32_col_bytes(rows))) implies false by {
                    let p = presence_of(rows);
                    lemma_at_split(*old(r), r1, presence_bytes(p), enc_u32s(dense(rows)));
                    assert(at(*old(r), presence_bytes(p)));
                    assert(flags@ == p);
                    lemma_dense_len_is_count(rows);
                    assert(cnt == dense(rows).len());
                    assert(at(r1, enc_u32s(dense(rows))));
                }
            }
            return Err(e);
        },
    };
    let out = scatter_u32(&flags, &vals);
    proof {
        assert forall|rows: Seq<Option<u32>>|
            (rows.len() == n && #[trigger] at(*old(r), opt_u32_col_bytes(rows))) implies (out@
            == rows && final(r).pos == old(r).pos + opt_u32_col_bytes(rows).len()) by {
            let p = presence_of(rows);
            lemma_at_split(*old(r), r1, presence_bytes(p), enc_u32s(dense(rows)));
            assert(at(*old(r), presence_bytes(p)));
            assert(flags@ == p);
            lemma_dense_len_is_count(rows);
            assert(cnt == dense(rows).len());
            assert(at(r1, enc_u32s(dense(rows))));
            assert(vals@ == dense(rows));
            lemma_opt_seq_ext(out@, rows);
        }
    }
    Ok(out)
}

} // verus!
