//! The codec front door and the container layout.
//!
//! `Encode` and `Decode` are the generic per-record-type contracts a
//! physical encoding implements. `ParquetCodec` is the typed columnar
//! encoding this crate provides: a self-describing container holding a
//! schema block and a sequence of row groups, with optional whole-body
//! compression.
//!
//! Container layout, all integers little-endian:
//! magic and version (5 bytes) · compression id and level (2 bytes) ·
//! schema block · total row count (u64) · body length (u64) · body.
//! The body is the row groups back to back — each row group being a row
//! count (u32) followed by one column chunk per schema entry in schema
//! order — compressed as a whole when the level is nonzero.

pub mod parquet_codec;

use vstd::prelude::*;
use vstd::bytes::*;
use vstd::slice::slice_subrange;

use crate::compress::{deflate, deflate_bytes, inflate};
use crate::errors::{DecodeError, EncodeError};
use crate::records::views;
use crate::schema::{schema_block_bytes, schema_block_for, spec_schema, RecordType};
use crate::wire::{at, lemma_at_prefix, lemma_at_split, rd_wf, write_bytes, write_u64, write_u8, ByteReader};

verus! {

/// The bytes that open every container: a four-byte magic, then a format
/// version.
pub open spec fn spec_magic() -> Seq<u8> {
    seq![67u8, 80u8, 81u8, 49u8, 1u8]
}

/// Build the magic-and-version prefix.
pub fn magic_bytes() -> (v: Vec<u8>)
    ensures
        v@ == spec_magic(),
{
    let mut v: Vec<u8> = Vec::new();
    v.push(67);
    v.push(80);
    v.push(81);
    v.push(49);
    v.push(1);
    proof {
        assert(v@ =~= spec_magic());
    }
    v
}

/// The compression identifier recorded for a level: 0 none, 1 zlib.
pub open spec fn comp_id_of(lvl: u32) -> u8 {
    if lvl == 0 {
        0
    } else {
        1
    }
}

/// A record type the columnar codec can lay out: a schema, a row-group
/// column encoding, and their inverse.
pub trait Columnar: View + Sized {
    /// The schema this record type selects.
    spec fn record_type() -> RecordType;

    /// The record fits its schema's shape.
    spec fn wf(v: Self::V) -> bool;

    /// The bytes of the column chunks of one row group holding rows `g`,
    /// one chunk per schema entry in schema order.
    spec fn group_cols_bytes(g: Seq<Self::V>) -> Seq<u8>;

    /// The schema this record type selects.
    fn record_type_val() -> (rt: RecordType)
        ensures
            rt == Self::record_type(),
    ;

    /// Does this record satisfy its schema's shape?
    fn check(&self) -> (b: bool)
        ensures
            b == Self::wf(self@),
    ;

    /// Append one row group: its row count, then each column chunk in
    /// schema order, each column closed before the next begins.
    fn write_group(g: &[Self], out: &mut Vec<u8>)
        requires
            g@.len() <= u32::MAX,
            forall|i: int| 0 <= i < g@.len() ==> Self::wf(g@[i]@),
        ensures
            final(out)@ == old(out)@ + spec_u32_to_le_bytes(g@.len() as u32)
                + Self::group_cols_bytes(views(g@)),
    ;

    /// Parse one row group written by `write_group`.
    fn parse_group(r: &mut ByteReader) -> (res: Result<Vec<Self>, DecodeError>)
        requires
            rd_wf(*old(r)),
        ensures
            final(r).data@ == old(r).data@,
            rd_wf(*final(r)),
            forall|g: Seq<Self::V>|
                (g.len() <= u32::MAX && (forall|i: int| 0 <= i < g.len() ==> Self::wf(g[i]))
                    && #[trigger] at(
                    *old(r),
                    spec_u32_to_le_bytes(g.len() as u32) + Self::group_cols_bytes(g),
                )) ==> (res is Ok && views(res->Ok_0@) == g && final(r).pos == old(r).pos + 4
                    + Self::group_cols_bytes(g).len()),
    ;
}

/// A batch the columnar codec accepts: its row count fits a group counter
/// and every record fits its schema.
pub open spec fn encodable_batch<T: Columnar>(rows: Seq<T::V>) -> bool {
    &&& rows.len() <= u32::MAX
    &&& forall|i: int| 0 <= i < rows.len() ==> T::wf(rows[i])
}

/// The container body: consecutive row groups of at most `bs` rows, in row
/// order, the last group possibly smaller.
pub open spec fn groups_bytes<T: Columnar>(rows: Seq<T::V>, bs: int) -> Seq<u8>
    decreases rows.len(),
{
    if rows.len() == 0 {
        Seq::empty()
    } else {
        let m = if bs < 1 || bs > rows.len() {
            rows.len() as int
        } else {
            bs
        };
        spec_u32_to_le_bytes(m as u32) + T::group_cols_bytes(rows.take(m)) + groups_bytes::<T>(
            rows.skip(m),
            bs,
        )
    }
}

/// The full container for a batch, at a group size and compression level.
pub open spec fn container_bytes<T: Columnar>(rows: Seq<T::V>, bs: int, lvl: u32) -> Seq<u8> {
    let body = groups_bytes::<T>(rows, bs);
    let payload = if lvl == 0 {
        body
    } else {
        deflate_bytes(body, lvl)
    };
    spec_magic() + seq![comp_id_of(lvl), lvl as u8] + schema_block_bytes(
        spec_schema(T::record_type()),
    ) + spec_u64_to_le_bytes(rows.len() as u64) + spec_u64_to_le_bytes(payload.len() as u64)
        + payload
}

/// Append the container for `data` to `out`. Returns `Ok` exactly when the
/// batch is encodable, and then appends exactly the container bytes; an
/// unencodable batch leaves `out` unchanged.
pub fn encode_container<T: Columnar>(bs: usize, lvl: u32, data: &Vec<T>, out: &mut Vec<u8>) -> (res:
    Result<(), EncodeError>)
    requires
        1 <= bs,
        lvl <= 9,
    ensures
        res is Ok <==> encodable_batch::<T>(views(data@)),
        res is Ok ==> final(out)@ == old(out)@ + container_bytes::<T>(
            views(data@),
            bs as int,
            lvl,
        ),
        res is Err ==> final(out)@ == old(out)@,
        res is Err ==> res->Err_0 == (if views(data@).len() > u32::MAX {
            EncodeError::BatchTooLarge
        } else {
            EncodeError::MalformedRecord
        }),
{
    let n = data.len();
    if n as u64 > u32::MAX as u64 {
        return Err(EncodeError::BatchTooLarge);
    }
    let mut i: usize = 0;
    while i < n
        invariant
            i <= n,
            n == data@.len(),
            n <= u32::MAX,
            forall|k: int| 0 <= k < i ==> T::wf(views(data@)[k]),
        decreases n - i,
    {
        proof {
            assert(views(data@)[i as int] == data@[i as int]@);
        }
        if !data[i].check() {
            return Err(EncodeError::MalformedRecord);
        }
        i = i + 1;
    }
    // The batch is encodable; everything below succeeds.
    let ghost rows = views(data@);
    let mv = magic_bytes();
    write_bytes(out, mv.as_slice());
    let id: u8 = if lvl == 0 {
        0
    } else {
        1
    };
    write_u8(out, id);
    write_u8(out, lvl as u8);
    let rt = T::record_type_val();
    let sb = schema_block_for(rt);
    write_bytes(out, sb.as_slice());
    write_u64(out, n as u64);

    let mut body: Vec<u8> = Vec::new();
    let mut idx: usize = 0;
    proof {
        assert(rows.skip(0) =~= rows);
    }
    while idx < n
        invariant
            idx <= n,
            n == data@.len(),
            n <= u32::MAX,
            1 <= bs,
            rows == views(data@),
            forall|k: int| 0 <= k < n ==> T::wf(views(data@)[k]),
            body@ + groups_bytes::<T>(rows.skip(idx as int), bs as int) == groups_bytes::<T>(
                rows,
                bs as int,
            ),
        decreases n - idx,
    {
        let m = if n - idx < bs {
            n - idx
        } else {
            bs
        };
        let chunk: &[T] = slice_subrange(data.as_slice(), idx, idx + m);
        proof {
            assert forall|j: int| 0 <= j < chunk@.len() implies T::wf(chunk@[j]@) by {
                assert(chunk@[j] == data@[idx + j]);
                assert(views(data@)[idx + j] == data@[idx + j]@);
            }
        }
        let ghost body_before = body@;
        T::write_group(chunk, &mut body);
        proof {
            let rem = rows.skip(idx as int);
            assert(rem.len() == n - idx);
            let spec_m = if (bs as int) < 1 || (bs as int) > rem.len() {
                rem.len() as int
            } else {
                bs as int
            };
            assert(spec_m == m);
            assert(views(chunk@) =~= rem.take(m as int));
            assert(rows.skip(idx + m) =~= rem.skip(m as int));
            assert(groups_bytes::<T>(rem, bs as int) == spec_u32_to_le_bytes(m as u32)
                + T::group_cols_bytes(rem.take(m as int)) + groups_bytes::<T>(
                rem.skip(m as int),
                bs as int,
            ));
            assert(body@ =~= body_before + spec_u32_to_le_bytes(m as u32) + T::group_cols_bytes(
                rem.take(m as int),
            ));
            assert(body@ + groups_bytes::<T>(rows.skip(idx + m), bs as int) =~= body_before
                + groups_bytes::<T>(rem, bs as int));
        }
        idx = idx + m;
    }
    proof {
        assert(rows.skip(n as int) =~= Seq::<T::V>::empty());
        assert(groups_bytes::<T>(rows.skip(n as int), bs as int) =~= Seq::<u8>::empty());
        assert(body@ =~= groups_bytes::<T>(rows, bs as int));
    }

    let payload: Vec<u8> = if lvl == 0 {
        body
    } else {
        deflate(&body, lvl)
    };
    write_u64(out, payload.len() as u64);
    write_bytes(out, payload.as_slice());
    proof {
        assert(final(out)@ =~= old(out)@ + container_bytes::<T>(rows, bs as int, lvl));
    }
    Ok(())
}

/// Parse `remaining` rows' worth of row groups.
pub fn parse_groups<T: Columnar>(r: &mut ByteReader, remaining: usize) -> (res: Result<
    Vec<T>,
    DecodeError,
>)
    requires
        rd_wf(*old(r)),
    ensures
        final(r).data@ == old(r).data@,
        rd_wf(*final(r)),
        forall|rows: Seq<T::V>, bs: int|
            (rows.len() == remaining && 1 <= bs && rows.len() <= u32::MAX && (forall|i: int|
                0 <= i < rows.len() ==> T::wf(rows[i])) && #[trigger] at(
                *old(r),
                groups_bytes::<T>(rows, bs),
            )) ==> (res is Ok && views(res->Ok_0@) == rows && final(r).pos == old(r).pos
                + groups_bytes::<T>(rows, bs).len()),
    decreases remaining,
{
    if remaining == 0 {
        let out: Vec<T> = Vec::new();
        proof {
            assert forall|rows: Seq<T::V>, bs: int|
                (rows.len() == 0 && 1 <= bs && #[trigger] at(
                    *old(r),
                    groups_bytes::<T>(rows, bs),
                )) implies views(out@) == rows by {
                assert(views(out@) =~= rows);
            }
        }
        return Ok(out);
    }
    let g_rows = match T::parse_group(r) {
        Ok(v) => v,
        Err(e) => {
            proof {
                assert forall|rows: Seq<T::V>, bs: int|
                    (rows.len() == remaining && 1 <= bs && rows.len() <= u32::MAX && (forall|
                        i: int,
                    |
                        0 <= i < rows.len() ==> T::wf(rows[i])) && #[trigger] at(
                        *old(r),
                        groups_bytes::<T>(rows, bs),
                    )) implies false by {
                    let m = lemma_groups_head::<T>(*old(r), rows, bs);
                    assert(forall|i: int|
                        0 <= i < rows.take(m).len() ==> T::wf(rows.take(m)[i]));
                    assert(rows.take(m).len() <= u32::MAX);
                }
            }
            return Err(e);
        },
    };
    let glen = g_rows.len();
    if glen == 0 || glen > remaining {
        proof {
            assert forall|rows: Seq<T::V>, bs: int|
                (rows.len() == remaining && 1 <= bs && rows.len() <= u32::MAX && (forall|i: int|
                    0 <= i < rows.len() ==> T::wf(rows[i])) && #[trigger] at(
                    *old(r),
                    groups_bytes::<T>(rows, bs),
                )) implies false by {
                let m = lemma_groups_head::<T>(*old(r), rows, bs);
                assert(forall|i: int|
                    0 <= i < rows.take(m).len() ==> T::wf(rows.take(m)[i]));
                assert(rows.take(m).len() <= u32::MAX);
                assert(views(g_rows@) == rows.take(m));
                assert(glen == m);
            }
        }
        return Err(DecodeError::Malformed);
    }
    let ghost r1 = *r;
    let rest = match parse_groups::<T>(r, remaining - glen) {
        Ok(v) => v,
        Err(e) => {
            proof {
                assert forall|rows: Seq<T::V>, bs: int|
                    (rows.len() == remaining && 1 <= bs && rows.len() <= u32::MAX && (forall|
                        i: int,
                    |
                        0 <= i < rows.len() ==> T::wf(rows[i])) && #[trigger] at(
                        *old(r),
                        groups_bytes::<T>(rows, bs),
                    )) implies false by {
                    let m = lemma_groups_head::<T>(*old(r), rows, bs);
                    assert(forall|i: int|
                        0 <= i < rows.take(m).len() ==> T::wf(rows.take(m)[i]));
                    assert(rows.take(m).len() <= u32::MAX);
                    assert(views(g_rows@) == rows.take(m));
                    assert(glen == m);
                    lemma_at_split(
                        *old(r),
                        r1,
                        spec_u32_to_le_bytes(m as u32) + T::group_cols_bytes(rows.take(m)),
                        groups_bytes::<T>(rows.skip(m), bs),
                    );
                    assert(at(r1, groups_bytes::<T>(rows.skip(m), bs)));
                    assert(rows.skip(m).len() == remaining - glen);
                    assert(forall|i: int|
                        0 <= i < rows.skip(m).len() ==> T::wf(rows.skip(m)[i]));
                }
            }
            return Err(e);
        },
    };
    let mut all = g_rows;
    let mut rest_mut = rest;
    all.append(&mut rest_mut);
    proof {
        assert forall|rows: Seq<T::V>, bs: int|
            (rows.len() == remaining && 1 <= bs && rows.len() <= u32::MAX && (forall|i: int|
                0 <= i < rows.len() ==> T::wf(rows[i])) && #[trigger] at(
                *old(r),
                groups_bytes::<T>(rows, bs),
            )) implies (views(all@) == rows && final(r).pos == old(r).pos + groups_bytes::<T>(
            rows,
            bs,
        ).len()) by {
            let m = lemma_groups_head::<T>(*old(r), rows, bs);
            assert(forall|i: int|
                0 <= i < rows.take(m).len() ==> T::wf(rows.take(m)[i]));
            assert(rows.take(m).len() <= u32::MAX);
            assert(views(g_rows@) == rows.take(m));
            assert(glen == m);
            lemma_at_split(
                *old(r),
                r1,
                spec_u32_to_le_bytes(m as u32) + T::group_cols_bytes(rows.take(m)),
                groups_bytes::<T>(rows.skip(m), bs),
            );
            assert(at(r1, groups_bytes::<T>(rows.skip(m), bs)));
            assert(rows.skip(m).len() == remaining - glen);
            assert(forall|i: int| 0 <= i < rows.skip(m).len() ==> T::wf(rows.skip(m)[i]));
            assert(views(rest@) == rows.skip(m));
            assert forall|j: int| 0 <= j < rows.len() implies views(all@)[j] == rows[j] by {
                if j < m {
                    assert(views(g_rows@)[j] == rows.take(m)[j]);
                } else {
                    assert(views(rest@)[j - m] == rows.skip(m)[j - m]);
                }
            }
            assert(views(all@) =~= rows);
        }
    }
    Ok(all)
}

/// Unfolds one step of `groups_bytes` under a reader positioned on it:
/// exposes the head group and hands back its row count. The instantiation
/// of `parse_group`'s contract happens through the returned facts.
proof fn lemma_groups_head<T: Columnar>(r0: ByteReader, rows: Seq<T::V>, bs: int) -> (m: int)
    requires
        rows.len() > 0,
        1 <= bs,
        at(r0, groups_bytes::<T>(rows, bs)),
    ensures
        1 <= m <= rows.len(),
        m <= bs,
        groups_bytes::<T>(rows, bs) == (spec_u32_to_le_bytes(m as u32) + T::group_cols_bytes(
            rows.take(m),
        )) + groups_bytes::<T>(rows.skip(m), bs),
        at(
            r0,
            (spec_u32_to_le_bytes(m as u32) + T::group_cols_bytes(rows.take(m)))
                + groups_bytes::<T>(rows.skip(m), bs),
        ),
        at(r0, spec_u32_to_le_bytes(rows.take(m).len() as u32) + T::group_cols_bytes(rows.take(m))),
        rows.take(m).len() == m,
        spec_u32_to_le_bytes(m as u32).len() == 4,
{
    vstd::bytes::lemma_auto_spec_u32_to_from_le_bytes();
    let m = if bs < 1 || bs > rows.len() {
        rows.len() as int
    } else {
        bs
    };
    assert(groups_bytes::<T>(rows, bs) == spec_u32_to_le_bytes(m as u32) + T::group_cols_bytes(
        rows.take(m),
    ) + groups_bytes::<T>(rows.skip(m), bs));
    assert(groups_bytes::<T>(rows, bs) =~= (spec_u32_to_le_bytes(m as u32) + T::group_cols_bytes(
        rows.take(m),
    )) + groups_bytes::<T>(rows.skip(m), bs));
    lemma_at_prefix(
        r0,
        spec_u32_to_le_bytes(m as u32) + T::group_cols_bytes(rows.take(m)),
        groups_bytes::<T>(rows.skip(m), bs),
    );
    assert(rows.take(m).len() == m);
    m
}

/// Reconstruct the batch held in a container. Whenever `input` is the
/// container of an encodable batch — at any group size and compression
/// level — the decode returns exactly that batch.
pub fn decode_container<T: Columnar>(input: &Vec<u8>) -> (res: Result<Vec<T>, DecodeError>)
    ensures
        forall|d: Seq<T::V>, bs: int, lvl: u32|
            (1 <= bs && lvl <= 9 && encodable_batch::<T>(d) && input@ == container_bytes::<T>(
                d,
                bs,
                lvl,
            )) ==> (res is Ok && views(res->Ok_0@) == d),
{
    let mut rd = ByteReader::new(input.as_slice());
    let ghost r0 = rd;
    proof {
        broadcast use vstd::slice::axiom_spec_len;

        assert(r0.data@.len() == vstd::slice::spec_slice_len(r0.data));
        assert(r0.data@.len() <= usize::MAX);
    }
    let mv = magic_bytes();
    if !rd.read_expect(&mv) {
        proof {
            assert forall|d: Seq<T::V>, bs: int, lvl: u32|
                (1 <= bs && lvl <= 9 && encodable_batch::<T>(d) && input@ == container_bytes::<T>(
                    d,
                    bs,
                    lvl,
                )) implies false by {
                lemma_container_open::<T>(r0, input@, d, bs, lvl);
            }
        }
        return Err(DecodeError::Malformed);
    }
    let ghost r1 = rd;
    let id = match rd.read_u8() {
        Ok(v) => v,
        Err(e) => {
            proof {
                assert forall|d: Seq<T::V>, bs: int, lvl: u32|
                    (1 <= bs && lvl <= 9 && encodable_batch::<T>(d) && input@
                        == container_bytes::<T>(d, bs, lvl)) implies false by {
                    lemma_container_open::<T>(r0, input@, d, bs, lvl);
                }
            }
            return Err(e);
        },
    };
    let lvl_byte = match rd.read_u8() {
        Ok(v) => v,
        Err(e) => {
            proof {
                assert forall|d: Seq<T::V>, bs: int, lvl: u32|
                    (1 <= bs && lvl <= 9 && encodable_batch::<T>(d) && input@
                        == container_bytes::<T>(d, bs, lvl)) implies false by {
                    lemma_container_open::<T>(r0, input@, d, bs, lvl);
                }
            }
            return Err(e);
        },
    };
    let ghost r2 = rd;
    let rt = T::record_type_val();
    let sb = schema_block_for(rt);
    if !rd.read_expect(&sb) {
        proof {
            assert forall|d: Seq<T::V>, bs: int, lvl: u32|
                (1 <= bs && lvl <= 9 && encodable_batch::<T>(d) && input@ == container_bytes::<T>(
                    d,
                    bs,
                    lvl,
                )) implies false by {
                lemma_container_open::<T>(r0, input@, d, bs, lvl);
                assert(at(r2, schema_block_bytes(spec_schema(T::record_type()))));
            }
        }
        return Err(DecodeError::SchemaMismatch);
    }
    let ghost r3 = rd;
    let total = match rd.read_u64() {
        Ok(v) => v,
        Err(e) => {
            proof {
                assert forall|d: Seq<T::V>, bs: int, lvl: u32|
                    (1 <= bs && lvl <= 9 && encodable_batch::<T>(d) && input@
                        == container_bytes::<T>(d, bs, lvl)) implies false by {
                    lemma_container_open::<T>(r0, input@, d, bs, lvl);
                    lemma_auto_spec_u64_to_from_le_bytes();
                }
            }
            return Err(e);
        },
    };
    let ghost r4 = rd;
    let plen = match rd.read_u64() {
        Ok(v) => v,
        Err(e) => {
            proof {
                assert forall|d: Seq<T::V>, bs: int, lvl: u32|
                    (1 <= bs && lvl <= 9 && encodable_batch::<T>(d) && input@
                        == container_bytes::<T>(d, bs, lvl)) implies false by {
                    lemma_container_open::<T>(r0, input@, d, bs, lvl);
                    lemma_auto_spec_u64_to_from_le_bytes();
                }
            }
            return Err(e);
        },
    };
    let ghost r5 = rd;
    if total > u32::MAX as u64 {
        proof {
            assert forall|d: Seq<T::V>, bs: int, lvl: u32|
                (1 <= bs && lvl <= 9 && encodable_batch::<T>(d) && input@ == container_bytes::<T>(
                    d,
                    bs,
                    lvl,
                )) implies false by {
                lemma_container_open::<T>(r0, input@, d, bs, lvl);
                lemma_auto_spec_u64_to_from_le_bytes();
                assert(total == d.len() as u64);
            }
        }
        return Err(DecodeError::Malformed);
    }
    let total_us = total as usize;
    if plen > usize::MAX as u64 {
        proof {
            assert forall|d: Seq<T::V>, bs: int, lvl: u32|
                (1 <= bs && lvl <= 9 && encodable_batch::<T>(d) && input@ == container_bytes::<T>(
                    d,
                    bs,
                    lvl,
                )) implies false by {
                lemma_container_open::<T>(r0, input@, d, bs, lvl);
                lemma_auto_spec_u64_to_from_le_bytes();
            }
        }
        return Err(DecodeError::Malformed);
    }
    let plen_us = plen as usize;
    let body_raw = match rd.read_bytes(plen_us) {
        Ok(v) => v,
        Err(e) => {
            proof {
                assert forall|d: Seq<T::V>, bs: int, lvl: u32|
                    (1 <= bs && lvl <= 9 && encodable_batch::<T>(d) && input@
                        == container_bytes::<T>(d, bs, lvl)) implies false by {
                    lemma_container_open::<T>(r0, input@, d, bs, lvl);
                    lemma_auto_spec_u64_to_from_le_bytes();
                }
            }
            return Err(e);
        },
    };
    if !rd.is_exhausted() {
        proof {
            assert forall|d: Seq<T::V>, bs: int, lvl: u32|
                (1 <= bs && lvl <= 9 && encodable_batch::<T>(d) && input@ == container_bytes::<T>(
                    d,
                    bs,
                    lvl,
                )) implies false by {
                lemma_container_open::<T>(r0, input@, d, bs, lvl);
                lemma_auto_spec_u64_to_from_le_bytes();
            }
        }
        return Err(DecodeError::Malformed);
    }
    let body: Vec<u8> = if id == 0 {
        body_raw
    } else if id == 1 {
        match inflate(&body_raw) {
            Some(b) => b,
            None => {
                proof {
                    assert forall|d: Seq<T::V>, bs: int, lvl: u32|
                        (1 <= bs && lvl <= 9 && encodable_batch::<T>(d) && input@
                            == container_bytes::<T>(d, bs, lvl)) implies false by {
                        lemma_container_open::<T>(r0, input@, d, bs, lvl);
                        lemma_auto_spec_u64_to_from_le_bytes();
                        assert(id == comp_id_of(lvl));
                        assert(lvl >= 1);
                        assert(body_raw@ == deflate_bytes(groups_bytes::<T>(d, bs), lvl));
                    }
                }
                return Err(DecodeError::Malformed);
            },
        }
    } else {
        proof {
            assert forall|d: Seq<T::V>, bs: int, lvl: u32|
                (1 <= bs && lvl <= 9 && encodable_batch::<T>(d) && input@ == container_bytes::<T>(
                    d,
                    bs,
                    lvl,
                )) implies false by {
                lemma_container_open::<T>(r0, input@, d, bs, lvl);
                assert(id == comp_id_of(lvl));
            }
        }
        return Err(DecodeError::Malformed);
    };
    let mut rd2 = ByteReader::new(body.as_slice());
    let ghost q0 = rd2;
    let got = match parse_groups::<T>(&mut rd2, total_us) {
        Ok(v) => v,
        Err(e) => {
            proof {
                assert forall|d: Seq<T::V>, bs: int, lvl: u32|
                    (1 <= bs && lvl <= 9 && encodable_batch::<T>(d) && input@
                        == container_bytes::<T>(d, bs, lvl)) implies false by {
                    lemma_container_open::<T>(r0, input@, d, bs, lvl);
                    lemma_auto_spec_u64_to_from_le_bytes();
                    assert(body@ == groups_bytes::<T>(d, bs));
                    assert(at(q0, groups_bytes::<T>(d, bs))) by {
                        assert(q0.data@.subrange(0, q0.data@.len() as int) =~= q0.data@);
                    }
                    assert(total_us == d.len());
                }
            }
            return Err(e);
        },
    };
    if !rd2.is_exhausted() {
        proof {
            assert forall|d: Seq<T::V>, bs: int, lvl: u32|
                (1 <= bs && lvl <= 9 && encodable_batch::<T>(d) && input@ == container_bytes::<T>(
                    d,
                    bs,
                    lvl,
                )) implies false by {
                lemma_container_open::<T>(r0, input@, d, bs, lvl);
                lemma_auto_spec_u64_to_from_le_bytes();
                assert(body@ == groups_bytes::<T>(d, bs));
                assert(at(q0, groups_bytes::<T>(d, bs))) by {
                    assert(q0.data@.subrange(0, q0.data@.len() as int) =~= q0.data@);
                }
                assert(total_us == d.len());
            }
        }
        return Err(DecodeError::Malformed);
    }
    proof {
        assert forall|d: Seq<T::V>, bs: int, lvl: u32|
            (1 <= bs && lvl <= 9 && encodable_batch::<T>(d) && input@ == container_bytes::<T>(
                d,
                bs,
                lvl,
            )) implies views(got@) == d by {
            lemma_container_open::<T>(r0, input@, d, bs, lvl);
            lemma_auto_spec_u64_to_from_le_bytes();
            assert(body@ == groups_bytes::<T>(d, bs));
            assert(at(q0, groups_bytes::<T>(d, bs))) by {
                assert(q0.data@.subrange(0, q0.data@.len() as int) =~= q0.data@);
            }
            assert(total_us == d.len());
        }
    }
    Ok(got)
}

/// Opens the container structure under a reader at its start: every header
/// piece sits at its place.
proof fn lemma_container_open<T: Columnar>(
    r0: ByteReader,
    input: Seq<u8>,
    d: Seq<T::V>,
    bs: int,
    lvl: u32,
)
    requires
        r0.pos == 0,
        r0.data@ == input,
        input.len() <= usize::MAX,
        input == container_bytes::<T>(d, bs, lvl),
        1 <= bs,
        lvl <= 9,
        d.len() <= u32::MAX,
    ensures
        ({
            let m_ = spec_magic();
            let c_ = seq![comp_id_of(lvl), lvl as u8];
            let s_ = schema_block_bytes(spec_schema(T::record_type()));
            let t_ = spec_u64_to_le_bytes(d.len() as u64);
            let body = groups_bytes::<T>(d, bs);
            let pl = if lvl == 0 {
                body
            } else {
                deflate_bytes(body, lvl)
            };
            let p_ = spec_u64_to_le_bytes(pl.len() as u64);
            &&& at(r0, m_)
            &&& input.len() == 5 + 2 + s_.len() + 8 + 8 + pl.len()
            &&& pl.len() <= usize::MAX
            &&& input[5] == comp_id_of(lvl)
            &&& input[6] == lvl as u8
            &&& input.subrange(7, 7 + s_.len() as int) == s_
            &&& input.subrange(7 + s_.len() as int, 7 + s_.len() as int + 8) == t_
            &&& input.subrange(7 + s_.len() as int + 8, 7 + s_.len() as int + 16) == p_
            &&& input.subrange(7 + s_.len() as int + 16, input.len() as int) == pl
        }),
{
    let m_ = spec_magic();
    let c_ = seq![comp_id_of(lvl), lvl as u8];
    let s_ = schema_block_bytes(spec_schema(T::record_type()));
    let t_ = spec_u64_to_le_bytes(d.len() as u64);
    let body = groups_bytes::<T>(d, bs);
    let pl = if lvl == 0 {
        body
    } else {
        deflate_bytes(body, lvl)
    };
    let p_ = spec_u64_to_le_bytes(pl.len() as u64);
    vstd::bytes::lemma_auto_spec_u64_to_from_le_bytes();
    assert(input =~= m_ + c_ + s_ + t_ + p_ + pl);
    assert(m_.len() == 5);
    assert(input.len() == 5 + 2 + s_.len() + 8 + 8 + pl.len());
    assert(input.subrange(0, 5) =~= m_);
    assert(at(r0, m_));
    assert(input[5] == c_[0]);
    assert(input[6] == c_[1]);
    assert(input.subrange(7, 7 + s_.len() as int) =~= s_);
    assert(input.subrange(7 + s_.len() as int, 7 + s_.len() as int + 8) =~= t_);
    assert(input.subrange(7 + s_.len() as int + 8, 7 + s_.len() as int + 16) =~= p_);
    assert(input.subrange(7 + s_.len() as int + 16, input.len() as int) =~= pl);
}

// ---------------------------------------------------------------------------
// The codec front door
// ---------------------------------------------------------------------------

/// One physical encoding's serializer for batches of `T`.
pub trait Encode<T: View> {
    /// Which configurations of this encoder are usable.
    spec fn valid_config(&self) -> bool;

    /// Which batches this encoder accepts.
    spec fn encodable(&self, data: Seq<T::V>) -> bool;

    /// The bytes an accepted batch encodes to.
    spec fn encoding(&self, data: Seq<T::V>) -> Seq<u8>;

    /// The error a rejected batch is refused with.
    spec fn encode_error(&self, data: Seq<T::V>) -> EncodeError;

    /// Append the encoding of `data` to `writer`. Succeeds exactly on the
    /// batches the encoder accepts; a rejected batch leaves `writer`
    /// unchanged.
    fn encode_subset(&self, data: &Vec<T>, writer: &mut Vec<u8>) -> (res: Result<(), EncodeError>)
        requires
            self.valid_config(),
        ensures
            res is Ok <==> self.encodable(views(data@)),
            res is Ok ==> final(writer)@ == old(writer)@ + self.encoding(views(data@)),
            res is Err ==> final(writer)@ == old(writer)@,
            res is Err ==> res->Err_0 == self.encode_error(views(data@)),
    ;
}

/// One physical encoding's deserializer for batches of `T`.
pub trait Decode<T: View> {
    /// Does `bytes` hold an encoding of the batch `data`, under any
    /// configuration some encoder instance could have used?
    spec fn produces(&self, bytes: Seq<u8>, data: Seq<T::V>) -> bool;

    /// Reconstruct the batch held in `reader`: whenever the bytes encode a
    /// batch, exactly that batch comes back, whatever instance encoded it.
    fn decode_subset(&self, reader: &Vec<u8>) -> (res: Result<Vec<T>, DecodeError>)
        ensures
            forall|d: Seq<T::V>|
                #[trigger] self.produces(reader@, d) ==> (res is Ok && views(res->Ok_0@) == d),
    ;
}

/// The typed columnar codec: batches become self-describing columnar
/// containers of row groups holding at most `batch_size` rows each,
/// zlib-compressed as a whole when `compression_level` is nonzero.
pub struct ParquetCodec {
    /// Rows per row group; must be at least 1.
    pub batch_size: usize,
    /// Body compression level: 0 disables compression, 1 through 9 select
    /// a zlib level.
    pub compression_level: u32,
}

impl ParquetCodec {
    /// A codec with the given row-group size and compression level.
    pub fn new(batch_size: usize, compression_level: u32) -> (c: Self)
        ensures
            c.batch_size == batch_size,
            c.compression_level == compression_level,
    {
        ParquetCodec { batch_size, compression_level }
    }
}

impl<T: Columnar> Encode<T> for ParquetCodec {
    open spec fn valid_config(&self) -> bool {
        1 <= self.batch_size && self.compression_level <= 9
    }

    open spec fn encodable(&self, data: Seq<T::V>) -> bool {
        encodable_batch::<T>(data)
    }

    open spec fn encoding(&self, data: Seq<T::V>) -> Seq<u8> {
        container_bytes::<T>(data, self.batch_size as int, self.compression_level)
    }

    open spec fn encode_error(&self, data: Seq<T::V>) -> EncodeError {
        if data.len() > u32::MAX {
            EncodeError::BatchTooLarge
        } else {
            EncodeError::MalformedRecord
        }
    }

    fn encode_subset(&self, data: &Vec<T>, writer: &mut Vec<u8>) -> (res: Result<(), EncodeError>) {
        encode_container::<T>(self.batch_size, self.compression_level, data, writer)
    }
}

impl<T: Columnar> Decode<T> for ParquetCodec {
    open spec fn produces(&self, bytes: Seq<u8>, data: Seq<T::V>) -> bool {
        exists|bs: int, lvl: u32|
            1 <= bs && lvl <= 9 && encodable_batch::<T>(data) && bytes == container_bytes::<T>(
                data,
                bs,
                lvl,
            )
    }

    fn decode_subset(&self, reader: &Vec<u8>) -> (res: Result<Vec<T>, DecodeError>) {
        let res = decode_container::<T>(reader);
        proof {
            assert forall|d: Seq<T::V>|
                #[trigger] Decode::<T>::produces(self, reader@, d) implies (res is Ok && views(
                res->Ok_0@,
            ) == d) by {
                let (bs, lvl) = choose|bs: int, lvl: u32|
                    1 <= bs && lvl <= 9 && encodable_batch::<T>(d) && reader@
                        == container_bytes::<T>(d, bs, lvl);
            }
        }
        res
    }
}

// ---------------------------------------------------------------------------
// Round-trip laws
// ---------------------------------------------------------------------------

/// Round trip: the container an encoder writes for an encodable batch is,
/// to any decoder instance, an encoding of exactly that batch. Together
/// with `encode_subset`'s and `decode_subset`'s contracts this says that
/// decoding an encoded batch returns it field for field, in order, for
/// every record type and batch size — batches of none, one, or many row
/// groups alike.
pub proof fn lemma_round_trip<T: Columnar>(enc: ParquetCodec, dec: ParquetCodec, d: Seq<T::V>)
    requires
        Encode::<T>::valid_config(&enc),
        encodable_batch::<T>(d),
    ensures
        Decode::<T>::produces(&dec, Encode::<T>::encoding(&enc, d), d),
{
    let bs = enc.batch_size as int;
    let lvl = enc.compression_level;
    assert(1 <= bs && lvl <= 9 && encodable_batch::<T>(d) && Encode::<T>::encoding(&enc, d)
        == container_bytes::<T>(d, bs, lvl));
}

/// Chunk-size invariance: two encoders that differ only in their row-group
/// size write possibly different containers for the same batch, but any
/// decoder reads the identical batch back from either.
pub proof fn lemma_chunk_size_invariance<T: Columnar>(
    c1: ParquetCodec,
    c2: ParquetCodec,
    dec: ParquetCodec,
    d: Seq<T::V>,
)
    requires
        Encode::<T>::valid_config(&c1),
        Encode::<T>::valid_config(&c2),
        c1.compression_level == c2.compression_level,
        encodable_batch::<T>(d),
    ensures
        Decode::<T>::produces(&dec, Encode::<T>::encoding(&c1, d), d),
        Decode::<T>::produces(&dec, Encode::<T>::encoding(&c2, d), d),
{
    lemma_round_trip::<T>(c1, dec, d);
    lemma_round_trip::<T>(c2, dec, d);
}

/// Compression invariance: an uncompressed and a compressed encoder write
/// different containers for the same batch, but any decoder reads the
/// identical batch back from either, with no dependence on the encoder
/// instance.
pub proof fn lemma_compression_invariance<T: Columnar>(
    c1: ParquetCodec,
    c2: ParquetCodec,
    dec: ParquetCodec,
    d: Seq<T::V>,
)
    requires
        Encode::<T>::valid_config(&c1),
        Encode::<T>::valid_config(&c2),
        c1.batch_size == c2.batch_size,
        encodable_batch::<T>(d),
    ensures
        Decode::<T>::produces(&dec, Encode::<T>::encoding(&c1, d), d),
        Decode::<T>::produces(&dec, Encode::<T>::encoding(&c2, d), d),
{
    lemma_round_trip::<T>(c1, dec, d);
    lemma_round_trip::<T>(c2, dec, d);
}

} // verus!
