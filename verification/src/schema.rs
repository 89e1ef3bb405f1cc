//! The schema descriptor: for each record type, the ordered list of column
//! descriptors, and the byte-level schema block that opens every container.
//!
//! The schema is a pure function of the record type alone — never of the
//! data — so a decoder can request it before reading a single byte, and two
//! batches of one record type always carry structurally identical schemas.
//! Column index `i` of the schema is column index `i` of the column codec;
//! the correspondence is positional.

use vstd::prelude::*;
use vstd::bytes::*;
use vstd::string::StringSliceAdditionalSpecFns;

use crate::wire::{write_bytes, write_u32, write_u8};

verus! {

/// The closed set of record types the codec serves.
#[derive(Debug, Clone, Copy, PartialEq, Eq, Structural)]
pub enum RecordType {
    Coin,
    Message,
    Contract,
    ContractState,
    ContractBalance,
}

/// The physical type of a column.
#[derive(Debug, Clone, Copy, PartialEq, Eq, Structural)]
pub enum PhysicalType {
    /// A byte array of the given fixed width.
    FixedBytes(u32),
    /// A length-prefixed byte array.
    VarBytes,
    /// A 32-bit integer slot; narrower logical values are widened into it.
    Int32,
    /// A 64-bit integer slot.
    Int64,
}

/// One column of a schema: its name, physical type, and nullability.
#[derive(Debug, Clone, Copy)]
pub struct ColumnDesc {
    pub name: &'static str,
    pub ptype: PhysicalType,
    pub nullable: bool,
}

/// The ordered column descriptors of each record type.
pub open spec fn spec_schema(rt: RecordType) -> Seq<ColumnDesc> {
    match rt {
        RecordType::Coin => seq![
            ColumnDesc { name: "tx_id", ptype: PhysicalType::FixedBytes(32), nullable: true },
            ColumnDesc { name: "output_index", ptype: PhysicalType::Int32, nullable: true },
            ColumnDesc {
                name: "tx_pointer_block_height",
                ptype: PhysicalType::Int32,
                nullable: true,
            },
            ColumnDesc { name: "tx_pointer_tx_idx", ptype: PhysicalType::Int32, nullable: true },
            ColumnDesc { name: "maturity", ptype: PhysicalType::Int32, nullable: true },
            ColumnDesc { name: "owner", ptype: PhysicalType::FixedBytes(32), nullable: false },
            ColumnDesc { name: "amount", ptype: PhysicalType::Int64, nullable: false },
            ColumnDesc { name: "asset_id", ptype: PhysicalType::FixedBytes(32), nullable: false },
        ],
        RecordType::Message => seq![
            ColumnDesc { name: "sender", ptype: PhysicalType::FixedBytes(32), nullable: false },
            ColumnDesc { name: "recipient", ptype: PhysicalType::FixedBytes(32), nullable: false },
            ColumnDesc { name: "nonce", ptype: PhysicalType::FixedBytes(32), nullable: false },
            ColumnDesc { name: "amount", ptype: PhysicalType::Int64, nullable: false },
            ColumnDesc { name: "data", ptype: PhysicalType::VarBytes, nullable: false },
            ColumnDesc { name: "da_height", ptype: PhysicalType::Int64, nullable: false },
        ],
        RecordType::Contract => seq![
            ColumnDesc { name: "contract_id", ptype: PhysicalType::FixedBytes(32), nullable: false },
            ColumnDesc { name: "code", ptype: PhysicalType::VarBytes, nullable: false },
            ColumnDesc { name: "salt", ptype: PhysicalType::FixedBytes(32), nullable: false },
            ColumnDesc { name: "tx_id", ptype: PhysicalType::FixedBytes(32), nullable: true },
            ColumnDesc { name: "output_index", ptype: PhysicalType::Int32, nullable: true },
            ColumnDesc {
                name: "tx_pointer_block_height",
                ptype: PhysicalType::Int32,
                nullable: true,
            },
            ColumnDesc { name: "tx_pointer_tx_idx", ptype: PhysicalType::Int32, nullable: true },
        ],
        RecordType::ContractState => seq![
            ColumnDesc { name: "key", ptype: PhysicalType::FixedBytes(32), nullable: false },
            ColumnDesc { name: "value", ptype: PhysicalType::FixedBytes(32), nullable: false },
        ],
        RecordType::ContractBalance => seq![
            ColumnDesc { name: "asset_id", ptype: PhysicalType::FixedBytes(32), nullable: false },
            ColumnDesc { name: "amount", ptype: PhysicalType::Int64, nullable: false },
        ],
    }
}

/// The ordered column descriptors of a record type. A pure function of the
/// record type alone, with no side effects; callable at decode time before
/// any byte of data is read.
pub fn schema_for(rt: RecordType) -> (s: Vec<ColumnDesc>)
    ensures
        s@ == spec_schema(rt),
{
    let mut s: Vec<ColumnDesc> = Vec::new();
    match rt {
        RecordType::Coin => {
            s.push(ColumnDesc { name: "tx_id", ptype: PhysicalType::FixedBytes(32), nullable: true });
            s.push(ColumnDesc { name: "output_index", ptype: PhysicalType::Int32, nullable: true });
            s.push(ColumnDesc {
                name: "tx_pointer_block_height",
                ptype: PhysicalType::Int32,
                nullable: true,
            });
            s.push(ColumnDesc {
                name: "tx_pointer_tx_idx",
                ptype: PhysicalType::Int32,
                nullable: true,
            });
            s.push(ColumnDesc { name: "maturity", ptype: PhysicalType::Int32, nullable: true });
            s.push(ColumnDesc { name: "owner", ptype: PhysicalType::FixedBytes(32), nullable: false });
            s.push(ColumnDesc { name: "amount", ptype: PhysicalType::Int64, nullable: false });
            s.push(ColumnDesc {
                name: "asset_id",
                ptype: PhysicalType::FixedBytes(32),
                nullable: false,
            });
        },
        RecordType::Message => {
            s.push(ColumnDesc { name: "sender", ptype: PhysicalType::FixedBytes(32), nullable: false });
            s.push(ColumnDesc {
                name: "recipient",
                ptype: PhysicalType::FixedBytes(32),
                nullable: false,
            });
            s.push(ColumnDesc { name: "nonce", ptype: PhysicalType::FixedBytes(32), nullable: false });
            s.push(ColumnDesc { name: "amount", ptype: PhysicalType::Int64, nullable: false });
            s.push(ColumnDesc { name: "data", ptype: PhysicalType::VarBytes, nullable: false });
            s.push(ColumnDesc { name: "da_height", ptype: PhysicalType::Int64, nullable: false });
        },
        RecordType::Contract => {
            s.push(ColumnDesc {
                name: "contract_id",
                ptype: PhysicalType::FixedBytes(32),
                nullable: false,
            });
            s.push(ColumnDesc { name: "code", ptype: PhysicalType::VarBytes, nullable: false });
            s.push(ColumnDesc { name: "salt", ptype: PhysicalType::FixedBytes(32), nullable: false });
            s.push(ColumnDesc { name: "tx_id", ptype: PhysicalType::FixedBytes(32), nullable: true });
            s.push(ColumnDesc { name: "output_index", ptype: PhysicalType::Int32, nullable: true });
            s.push(ColumnDesc {
                name: "tx_pointer_block_height",
                ptype: PhysicalType::Int32,
                nullable: true,
            });
            s.push(ColumnDesc {
                name: "tx_pointer_tx_idx",
                ptype: PhysicalType::Int32,
                nullable: true,
            });
        },
        RecordType::ContractState => {
            s.push(ColumnDesc { name: "key", ptype: PhysicalType::FixedBytes(32), nullable: false });
            s.push(ColumnDesc { name: "value", ptype: PhysicalType::FixedBytes(32), nullable: false });
        },
        RecordType::ContractBalance => {
            s.push(ColumnDesc {
                name: "asset_id",
                ptype: PhysicalType::FixedBytes(32),
                nullable: false,
            });
            s.push(ColumnDesc { name: "amount", ptype: PhysicalType::Int64, nullable: false });
        },
    }
    proof {
        assert(s@ =~= spec_schema(rt));
    }
    s
}

/// Schema stability: the schema descriptor is a pure function of the record
/// type, so any two schemas derived for the same record type are equal —
/// same column count, order, types, and nullability.
pub proof fn lemma_schema_stable(rt: RecordType, s1: Seq<ColumnDesc>, s2: Seq<ColumnDesc>)
    requires
        s1 == spec_schema(rt),
        s2 == spec_schema(rt),
    ensures
        s1 == s2,
        s1.len() == s2.len(),
        forall|i: int| 0 <= i < s1.len() ==> s1[i] == s2[i],
{
}

// ---------------------------------------------------------------------------
// The schema block
// ---------------------------------------------------------------------------

/// The tag byte of a physical type.
pub open spec fn type_tag(t: PhysicalType) -> u8 {
    match t {
        PhysicalType::FixedBytes(_) => 0,
        PhysicalType::VarBytes => 1,
        PhysicalType::Int32 => 2,
        PhysicalType::Int64 => 3,
    }
}

/// The width recorded for a physical type; zero when it is not fixed.
pub open spec fn type_width(t: PhysicalType) -> u32 {
    match t {
        PhysicalType::FixedBytes(w) => w,
        _ => 0,
    }
}

/// The bytes of one column descriptor: name length, name, tag, width,
/// nullability.
pub open spec fn desc_bytes(d: ColumnDesc) -> Seq<u8> {
    spec_u32_to_le_bytes(d.name.spec_bytes().len() as u32) + d.name.spec_bytes() + seq![
        type_tag(d.ptype),
    ] + spec_u32_to_le_bytes(type_width(d.ptype)) + seq![
        if d.nullable {
            1u8
        } else {
            0u8
        },
    ]
}

/// The bytes of a run of column descriptors.
pub open spec fn descs_bytes(s: Seq<ColumnDesc>) -> Seq<u8>
    decreases s.len(),
{
    if s.len() == 0 {
        Seq::empty()
    } else {
        desc_bytes(s[0]) + descs_bytes(s.drop_first())
    }
}

/// The schema block: column count, then each descriptor in order.
pub open spec fn schema_block_bytes(s: Seq<ColumnDesc>) -> Seq<u8> {
    spec_u32_to_le_bytes(s.len() as u32) + descs_bytes(s)
}

/// Appending one descriptor extends the run on the right.
pub proof fn lemma_descs_push(s: Seq<ColumnDesc>, d: ColumnDesc)
    ensures
        descs_bytes(s.push(d)) == descs_bytes(s) + desc_bytes(d),
    decreases s.len(),
{
    reveal_with_fuel(descs_bytes, 3);
    if s.len() == 0 {
        assert(s.push(d)[0] == d);
        assert(s.push(d).drop_first() =~= Seq::<ColumnDesc>::empty());
        assert(descs_bytes(s.push(d)) =~= descs_bytes(s) + desc_bytes(d));
    } else {
        assert(s.push(d)[0] == s[0]);
        assert(s.push(d).drop_first() =~= s.drop_first().push(d));
        lemma_descs_push(s.drop_first(), d);
        assert(descs_bytes(s.push(d)) =~= descs_bytes(s) + desc_bytes(d));
    }
}

/// Append the schema block of `s`.
pub fn write_schema_block(s: &Vec<ColumnDesc>, out: &mut Vec<u8>)
    requires
        s@.len() <= u32::MAX,
        forall|i: int| 0 <= i < s@.len() ==> s@[i].name.spec_bytes().len() <= u32::MAX,
    ensures
        final(out)@ == old(out)@ + schema_block_bytes(s@),
{
    let n = s.len();
    write_u32(out, n as u32);
    let ghost mid = out@;
    let mut i: usize = 0;
    while i < n
        invariant
            i <= n,
            n == s@.len(),
            forall|k: int| 0 <= k < s@.len() ==> s@[k].name.spec_bytes().len() <= u32::MAX,
            out@ == mid + descs_bytes(s@.take(i as int)),
        decreases n - i,
    {
        let d = s[i];
        let name_bytes: &[u8] = d.name.as_bytes();
        write_u32(out, d.name.len() as u32);
        write_bytes(out, name_bytes);
        let tag: u8 = match d.ptype {
            PhysicalType::FixedBytes(_) => 0,
            PhysicalType::VarBytes => 1,
            PhysicalType::Int32 => 2,
            PhysicalType::Int64 => 3,
        };
        write_u8(out, tag);
        let width: u32 = match d.ptype {
            PhysicalType::FixedBytes(w) => w,
            PhysicalType::VarBytes => 0,
            PhysicalType::Int32 => 0,
            PhysicalType::Int64 => 0,
        };
        write_u32(out, width);
        let nb: u8 = if d.nullable {
            1
        } else {
            0
        };
        write_u8(out, nb);
        proof {
            lemma_descs_push(s@.take(i as int), s@[i as int]);
            assert(s@.take(i + 1) =~= s@.take(i as int).push(s@[i as int]));
            assert(out@ =~= mid + descs_bytes(s@.take(i + 1)));
        }
        i = i + 1;
    }
    proof {
        assert(s@.take(n as int) =~= s@);
        assert(out@ =~= old(out)@ + schema_block_bytes(s@));
    }
}

/// Build the schema block of a record type in a fresh buffer.
pub fn schema_block_for(rt: RecordType) -> (out: Vec<u8>)
    ensures
        out@ == schema_block_bytes(spec_schema(rt)),
{
    let s = schema_for(rt);
    proof {
        lemma_schema_names_short(rt);
    }
    let mut out: Vec<u8> = Vec::new();
    write_schema_block(&s, &mut out);
    proof {
        assert(out@ =~= schema_block_bytes(spec_schema(rt)));
    }
    out
}

/// A UTF-8 encoding holds at most four bytes per character.
pub proof fn lemma_encode_utf8_len_le(chars: Seq<char>)
    ensures
        vstd::utf8::encode_utf8(chars).len() <= 4 * chars.len(),
    decreases chars.len(),
{
    if chars.len() != 0 {
        lemma_encode_utf8_len_le(chars.drop_first());
        assert(vstd::utf8::encode_scalar(chars[0] as u32).len() <= 4);
    }
}

/// Every column name of every schema fits a 32-bit length prefix.
pub proof fn lemma_schema_names_short(rt: RecordType)
    ensures
        spec_schema(rt).len() <= u32::MAX,
        forall|i: int|
            0 <= i < spec_schema(rt).len() ==> spec_schema(rt)[i].name.spec_bytes().len()
                <= u32::MAX,
{
    reveal_strlit("tx_id");
    reveal_strlit("output_index");
    reveal_strlit("tx_pointer_block_height");
    reveal_strlit("tx_pointer_tx_idx");
    reveal_strlit("maturity");
    reveal_strlit("owner");
    reveal_strlit("amount");
    reveal_strlit("asset_id");
    reveal_strlit("sender");
    reveal_strlit("recipient");
    reveal_strlit("nonce");
    reveal_strlit("data");
    reveal_strlit("da_height");
    reveal_strlit("contract_id");
    reveal_strlit("code");
    reveal_strlit("salt");
    reveal_strlit("key");
    reveal_strlit("value");
    let s = spec_schema(rt);
    assert forall|i: int| 0 <= i < s.len() implies s[i].name.spec_bytes().len() <= u32::MAX by {
        lemma_encode_utf8_len_le(s[i].name@);
        assert(s[i].name@.len() <= 32);
    }
}

} // verus!
