//! The per-record-type column layouts of the columnar codec: for each of
//! the five record types, how one row group's column chunks are written in
//! schema order, and how they are read back.

use vstd::prelude::*;
use vstd::bytes::*;
use vstd::slice::slice_index_get;

use crate::column::{
    bytes_views, copy_bytes, fixed_col_bytes, opt_bytes_views, parse_fixed_vals, parse_opt_fixed_col,
    parse_opt_u32_col, parse_u64_vals, parse_var_vals, opt_fixed_col_bytes, opt_u32_col_bytes,
    u64_col_bytes, var_col_bytes, write_fixed_col, write_opt_fixed_col, write_opt_u32_col,
    write_u64_col, write_var_col,
};
use crate::encoding::Columnar;
use crate::errors::DecodeError;
use crate::records::{
    coin_wf, contract_balance_wf, contract_state_wf, contract_wf, message_wf, views, CoinConfig,
    CoinV, ContractBalance, ContractBalanceV, ContractConfig, ContractState, ContractStateV,
    ContractV, MessageConfig, MessageV, ID_WIDTH,
};
use crate::schema::RecordType;
use crate::wire::{at, lemma_at_prefix, lemma_at_split, write_u32, ByteReader};

verus! {

/// An optional 8-bit logical value widened into its 32-bit physical slot.
pub open spec fn opt_widen8(o: Option<u8>) -> Option<u32> {
    match o {
        Some(v) => Some(v as u32),
        None => None,
    }
}

/// An optional 16-bit logical value widened into its 32-bit physical slot.
pub open spec fn opt_widen16(o: Option<u16>) -> Option<u32> {
    match o {
        Some(v) => Some(v as u32),
        None => None,
    }
}

impl Columnar for ContractBalance {
    open spec fn record_type() -> RecordType {
        RecordType::ContractBalance
    }

    open spec fn wf(v: ContractBalanceV) -> bool {
        contract_balance_wf(v)
    }

    open spec fn group_cols_bytes(g: Seq<ContractBalanceV>) -> Seq<u8> {
        fixed_col_bytes(g.map_values(|c: ContractBalanceV| c.asset_id)) + u64_col_bytes(
            g.map_values(|c: ContractBalanceV| c.amount),
        )
    }

    fn record_type_val() -> (rt: RecordType) {
        RecordType::ContractBalance
    }

    fn check(&self) -> (b: bool) {
        self.check_wf()
    }

    fn write_group(g: &[Self], out: &mut Vec<u8>) {
        let n = g.len();
        write_u32(out, n as u32);
        let mut ids: Vec<Vec<u8>> = Vec::new();
        let mut i: usize = 0;
        while i < n
            invariant
                i <= n,
                n == g@.len(),
                ids@.len() == i,
                forall|k: int| 0 <= k < i ==> #[trigger] ids@[k]@ == g@[k]@.asset_id,
            decreases n - i,
        {
            ids.push(copy_bytes(&slice_index_get(g, i).asset_id));
            i = i + 1;
        }
        proof {
            assert(bytes_views(ids@) =~= views(g@).map_values(
                |c: ContractBalanceV| c.asset_id,
            ));
        }
        write_fixed_col(&ids, out);
        let mut amts: Vec<u64> = Vec::new();
        let mut i: usize = 0;
        while i < n
            invariant
                i <= n,
                n == g@.len(),
                amts@.len() == i,
                forall|k: int| 0 <= k < i ==> #[trigger] amts@[k] == g@[k]@.amount,
            decreases n - i,
        {
            amts.push(slice_index_get(g, i).amount);
            i = i + 1;
        }
        proof {
            assert(amts@ =~= views(g@).map_values(|c: ContractBalanceV| c.amount));
        }
        write_u64_col(&amts, out);
        proof {
            assert(out@ =~= old(out)@ + spec_u32_to_le_bytes(g@.len() as u32)
                + Self::group_cols_bytes(views(g@)));
        }
    }

    fn parse_group(r: &mut ByteReader) -> (res: Result<Vec<Self>, DecodeError>) {
        let n32 = match r.read_u32() {
            Ok(v) => v,
            Err(e) => {
                proof {
                    assert forall|g: Seq<ContractBalanceV>|
                        (g.len() <= u32::MAX && (forall|i: int|
                            0 <= i < g.len() ==> Self::wf(g[i])) && #[trigger] at(
                            *old(r),
                            spec_u32_to_le_bytes(g.len() as u32) + Self::group_cols_bytes(g),
                        )) implies false by {
                        vstd::bytes::lemma_auto_spec_u32_to_from_le_bytes();
                    }
                }
                return Err(e);
            },
        };
        let n = n32 as usize;
        let ghost r1 = *r;
        let ids_res = parse_fixed_vals(r, n, ID_WIDTH);
        let ghost r2 = *r;
        let amts_res = parse_u64_vals(r, n);
        proof {
            assert forall|g: Seq<ContractBalanceV>|
                (g.len() <= u32::MAX && (forall|i: int| 0 <= i < g.len() ==> Self::wf(g[i]))
                    && #[trigger] at(
                    *old(r),
                    spec_u32_to_le_bytes(g.len() as u32) + Self::group_cols_bytes(g),
                )) implies (n == g.len() && ids_res is Ok && amts_res is Ok && bytes_views(
                ids_res->Ok_0@,
            ) == g.map_values(|c: ContractBalanceV| c.asset_id) && amts_res->Ok_0@
                == g.map_values(|c: ContractBalanceV| c.amount) && final(r).pos == old(r).pos + 4
                + Self::group_cols_bytes(g).len()) by {
                vstd::bytes::lemma_auto_spec_u32_to_from_le_bytes();
                let ids_g = g.map_values(|c: ContractBalanceV| c.asset_id);
                let amts_g = g.map_values(|c: ContractBalanceV| c.amount);
                assert(Self::group_cols_bytes(g) == fixed_col_bytes(ids_g) + u64_col_bytes(
                    amts_g,
                ));
                assert(spec_u32_to_le_bytes(g.len() as u32) + Self::group_cols_bytes(g)
                    =~= spec_u32_to_le_bytes(g.len() as u32) + (fixed_col_bytes(ids_g)
                    + u64_col_bytes(amts_g)));
                lemma_at_split(
                    *old(r),
                    r1,
                    spec_u32_to_le_bytes(g.len() as u32),
                    fixed_col_bytes(ids_g) + u64_col_bytes(amts_g),
                );
                assert(n32 == g.len() as u32);
                assert(n == g.len());
                assert(forall|i: int| 0 <= i < ids_g.len() ==> ids_g[i].len() == ID_WIDTH);
                crate::wire::lemma_at_prefix(r1, fixed_col_bytes(ids_g), u64_col_bytes(amts_g));
                assert(at(r1, crate::column::enc_fixed(ids_g)));
                assert(bytes_views(ids_res->Ok_0@) == ids_g);
                assert(r2.pos == r1.pos + fixed_col_bytes(ids_g).len());
                lemma_at_split(r1, r2, fixed_col_bytes(ids_g), u64_col_bytes(amts_g));
                assert(at(r2, crate::column::enc_u64s(amts_g)));
                assert(amts_res->Ok_0@ == amts_g);
            }
        }
        let ids = match ids_res {
            Ok(v) => v,
            Err(e) => {
                return Err(e);
            },
        };
        let amts = match amts_res {
            Ok(v) => v,
            Err(e) => {
                return Err(e);
            },
        };
        let mut out: Vec<ContractBalance> = Vec::new();
        let mut i: usize = 0;
        while i < n
            invariant
                i <= n,
                n == ids@.len(),
                n == amts@.len(),
                out@.len() == i,
                forall|k: int|
                    0 <= k < i ==> (#[trigger] out@[k]@.asset_id == ids@[k]@ && out@[k]@.amount
                        == amts@[k]),
            decreases n - i,
        {
            out.push(ContractBalance { asset_id: copy_bytes(&ids[i]), amount: amts[i] });
            i = i + 1;
        }
        proof {
            assert forall|g: Seq<ContractBalanceV>|
                (g.len() <= u32::MAX && (forall|i: int| 0 <= i < g.len() ==> Self::wf(g[i]))
                    && #[trigger] at(
                    *old(r),
                    spec_u32_to_le_bytes(g.len() as u32) + Self::group_cols_bytes(g),
                )) implies (views(out@) == g) by {
                assert forall|k: int| 0 <= k < g.len() implies views(out@)[k] == g[k] by {
                    assert(views(out@)[k] == out@[k]@);
                    assert(bytes_views(ids@)[k] == ids@[k]@);
                    assert(bytes_views(ids@)[k] == g.map_values(
                        |c: ContractBalanceV| c.asset_id,
                    )[k]);
                    assert(amts@[k] == g.map_values(|c: ContractBalanceV| c.amount)[k]);
                    assert(out@[k]@.asset_id == g[k].asset_id);
                    assert(out@[k]@.amount == g[k].amount);
                    assert(out@[k]@ =~= g[k]);
                }
                assert(views(out@) =~= g);
            }
        }
        Ok(out)
    }
}

impl Columnar for ContractState {
    open spec fn record_type() -> RecordType {
        RecordType::ContractState
    }

    open spec fn wf(v: ContractStateV) -> bool {
        contract_state_wf(v)
    }

    open spec fn group_cols_bytes(g: Seq<ContractStateV>) -> Seq<u8> {
        fixed_col_bytes(g.map_values(|c: ContractStateV| c.key)) + fixed_col_bytes(
            g.map_values(|c: ContractStateV| c.value),
        )
    }

    fn record_type_val() -> (rt: RecordType) {
        RecordType::ContractState
    }

    fn check(&self) -> (b: bool) {
        self.check_wf()
    }

    fn write_group(g: &[Self], out: &mut Vec<u8>) {
        let n = g.len();
        write_u32(out, n as u32);
        let mut keys: Vec<Vec<u8>> = Vec::new();
        let mut i: usize = 0;
        while i < n
            invariant
                i <= n,
                n == g@.len(),
                keys@.len() == i,
                forall|k: int| 0 <= k < i ==> #[trigger] keys@[k]@ == g@[k]@.key,
            decreases n - i,
        {
            keys.push(copy_bytes(&slice_index_get(g, i).key));
            i = i + 1;
        }
        proof {
            assert(bytes_views(keys@) =~= views(g@).map_values(|c: ContractStateV| c.key));
        }
        write_fixed_col(&keys, out);
        let mut vals: Vec<Vec<u8>> = Vec::new();
        let mut i: usize = 0;
        while i < n
            invariant
                i <= n,
                n == g@.len(),
                vals@.len() == i,
                forall|k: int| 0 <= k < i ==> #[trigger] vals@[k]@ == g@[k]@.value,
            decreases n - i,
        {
            vals.push(copy_bytes(&slice_index_get(g, i).value));
            i = i + 1;
        }
        proof {
            assert(bytes_views(vals@) =~= views(g@).map_values(|c: ContractStateV| c.value));
        }
        write_fixed_col(&vals, out);
        proof {
            assert(out@ =~= old(out)@ + spec_u32_to_le_bytes(g@.len() as u32)
                + Self::group_cols_bytes(views(g@)));
        }
    }

    fn parse_group(r: &mut ByteReader) -> (res: Result<Vec<Self>, DecodeError>) {
        let n32 = match r.read_u32() {
            Ok(v) => v,
            Err(e) => {
                proof {
                    assert forall|g: Seq<ContractStateV>|
                        (g.len() <= u32::MAX && (forall|i: int|
                            0 <= i < g.len() ==> Self::wf(g[i])) && #[trigger] at(
                            *old(r),
                            spec_u32_to_le_bytes(g.len() as u32) + Self::group_cols_bytes(g),
                        )) implies false by {
                        vstd::bytes::lemma_auto_spec_u32_to_from_le_bytes();
                    }
                }
                return Err(e);
            },
        };
        let n = n32 as usize;
        let ghost r1 = *r;
        let keys_res = parse_fixed_vals(r, n, ID_WIDTH);
        let ghost r2 = *r;
        let vals_res = parse_fixed_vals(r, n, ID_WIDTH);
        proof {
            assert forall|g: Seq<ContractStateV>|
                (g.len() <= u32::MAX && (forall|i: int| 0 <= i < g.len() ==> Self::wf(g[i]))
                    && #[trigger] at(
                    *old(r),
                    spec_u32_to_le_bytes(g.len() as u32) + Self::group_cols_bytes(g),
                )) implies (n == g.len() && keys_res is Ok && vals_res is Ok && bytes_views(
                keys_res->Ok_0@,
            ) == g.map_values(|c: ContractStateV| c.key) && bytes_views(vals_res->Ok_0@)
                == g.map_values(|c: ContractStateV| c.value) && final(r).pos == old(r).pos + 4
                + Self::group_cols_bytes(g).len()) by {
                vstd::bytes::lemma_auto_spec_u32_to_from_le_bytes();
                let keys_g = g.map_values(|c: ContractStateV| c.key);
                let vals_g = g.map_values(|c: ContractStateV| c.value);
                assert(spec_u32_to_le_bytes(g.len() as u32) + Self::group_cols_bytes(g)
                    =~= spec_u32_to_le_bytes(g.len() as u32) + (fixed_col_bytes(keys_g)
                    + fixed_col_bytes(vals_g)));
                lemma_at_split(
                    *old(r),
                    r1,
                    spec_u32_to_le_bytes(g.len() as u32),
                    fixed_col_bytes(keys_g) + fixed_col_bytes(vals_g),
                );
                assert(n32 == g.len() as u32);
                assert(n == g.len());
                assert(forall|i: int| 0 <= i < keys_g.len() ==> keys_g[i].len() == ID_WIDTH);
                assert(forall|i: int| 0 <= i < vals_g.len() ==> vals_g[i].len() == ID_WIDTH);
                lemma_at_prefix(r1, fixed_col_bytes(keys_g), fixed_col_bytes(vals_g));
                assert(at(r1, crate::column::enc_fixed(keys_g)));
                assert(bytes_views(keys_res->Ok_0@) == keys_g);
                assert(r2.pos == r1.pos + fixed_col_bytes(keys_g).len());
                lemma_at_split(r1, r2, fixed_col_bytes(keys_g), fixed_col_bytes(vals_g));
                assert(at(r2, crate::column::enc_fixed(vals_g)));
                assert(bytes_views(vals_res->Ok_0@) == vals_g);
            }
        }
        let keys = match keys_res {
            Ok(v) => v,
            Err(e) => {
                return Err(e);
            },
        };
        let vals = match vals_res {
            Ok(v) => v,
            Err(e) => {
                return Err(e);
            },
        };
        let mut out: Vec<ContractState> = Vec::new();
        let mut i: usize = 0;
        while i < n
            invariant
                i <= n,
                n == keys@.len(),
                n == vals@.len(),
                out@.len() == i,
                forall|k: int|
                    0 <= k < i ==> (#[trigger] out@[k]@.key == keys@[k]@ && out@[k]@.value
                        == vals@[k]@),
            decreases n - i,
        {
            out.push(ContractState { key: copy_bytes(&keys[i]), value: copy_bytes(&vals[i]) });
            i = i + 1;
        }
        proof {
            assert forall|g: Seq<ContractStateV>|
                (g.len() <= u32::MAX && (forall|i: int| 0 <= i < g.len() ==> Self::wf(g[i]))
                    && #[trigger] at(
                    *old(r),
                    spec_u32_to_le_bytes(g.len() as u32) + Self::group_cols_bytes(g),
                )) implies (views(out@) == g) by {
                assert forall|k: int| 0 <= k < g.len() implies views(out@)[k] == g[k] by {
                    assert(views(out@)[k] == out@[k]@);
                    assert(bytes_views(keys@)[k] == keys@[k]@);
                    assert(bytes_views(vals@)[k] == vals@[k]@);
                    assert(bytes_views(keys@)[k] == g.map_values(|c: ContractStateV| c.key)[k]);
                    assert(bytes_views(vals@)[k] == g.map_values(|c: ContractStateV| c.value)[k]);
                    assert(out@[k]@ =~= g[k]);
                }
                assert(views(out@) =~= g);
            }
        }
        Ok(out)
    }
}

impl Columnar for MessageConfig {
    open spec fn record_type() -> RecordType {
        RecordType::Message
    }

    open spec fn wf(v: MessageV) -> bool {
        message_wf(v)
    }

    open spec fn group_cols_bytes(g: Seq<MessageV>) -> Seq<u8> {
        fixed_col_bytes(g.map_values(|c: MessageV| c.sender)) + fixed_col_bytes(
            g.map_values(|c: MessageV| c.recipient),
        ) + fixed_col_bytes(g.map_values(|c: MessageV| c.nonce)) + u64_col_bytes(
            g.map_values(|c: MessageV| c.amount),
        ) + var_col_bytes(g.map_values(|c: MessageV| c.data)) + u64_col_bytes(
            g.map_values(|c: MessageV| c.da_height),
        )
    }

    fn record_type_val() -> (rt: RecordType) {
        RecordType::Message
    }

    fn check(&self) -> (b: bool) {
        self.check_wf()
    }

    fn write_group(g: &[Self], out: &mut Vec<u8>) {
        let n = g.len();
        write_u32(out, n as u32);
        let mut senders: Vec<Vec<u8>> = Vec::new();
        let mut i: usize = 0;
        while i < n
            invariant
                i <= n,
                n == g@.len(),
                senders@.len() == i,
                forall|k: int| 0 <= k < i ==> #[trigger] senders@[k]@ == g@[k]@.sender,
            decreases n - i,
        {
            senders.push(copy_bytes(&slice_index_get(g, i).sender));
            i = i + 1;
        }
        proof {
            assert(bytes_views(senders@) =~= views(g@).map_values(|c: MessageV| c.sender));
        }
        write_fixed_col(&senders, out);
        let mut recips: Vec<Vec<u8>> = Vec::new();
        let mut i: usize = 0;
        while i < n
            invariant
                i <= n,
                n == g@.len(),
                recips@.len() == i,
                forall|k: int| 0 <= k < i ==> #[trigger] recips@[k]@ == g@[k]@.recipient,
            decreases n - i,
        {
            recips.push(copy_bytes(&slice_index_get(g, i).recipient));
            i = i + 1;
        }
        proof {
            assert(bytes_views(recips@) =~= views(g@).map_values(|c: MessageV| c.recipient));
        }
        write_fixed_col(&recips, out);
        let mut nonces: Vec<Vec<u8>> = Vec::new();
        let mut i: usize = 0;
        while i < n
            invariant
                i <= n,
                n == g@.len(),
                nonces@.len() == i,
                forall|k: int| 0 <= k < i ==> #[trigger] nonces@[k]@ == g@[k]@.nonce,
            decreases n - i,
        {
            nonces.push(copy_bytes(&slice_index_get(g, i).nonce));
            i = i + 1;
        }
        proof {
            assert(bytes_views(nonces@) =~= views(g@).map_values(|c: MessageV| c.nonce));
        }
        write_fixed_col(&nonces, out);
        let mut amts: Vec<u64> = Vec::new();
        let mut i: usize = 0;
        while i < n
            invariant
                i <= n,
                n == g@.len(),
                amts@.len() == i,
                forall|k: int| 0 <= k < i ==> #[trigger] amts@[k] == g@[k]@.amount,
            decreases n - i,
        {
            amts.push(slice_index_get(g, i).amount);
            i = i + 1;
        }
        proof {
            assert(amts@ =~= views(g@).map_values(|c: MessageV| c.amount));
        }
        write_u64_col(&amts, out);
        let mut datas: Vec<Vec<u8>> = Vec::new();
        let mut i: usize = 0;
        while i < n
            invariant
                i <= n,
                n == g@.len(),
                datas@.len() == i,
                forall|k: int| 0 <= k < i ==> #[trigger] datas@[k]@ == g@[k]@.data,
            decreases n - i,
        {
            datas.push(copy_bytes(&slice_index_get(g, i).data));
            i = i + 1;
        }
        proof {
            assert(bytes_views(datas@) =~= views(g@).map_values(|c: MessageV| c.data));
            assert forall|k: int| 0 <= k < datas@.len() implies datas@[k]@.len() <= u32::MAX by {
                assert(g@[k]@.data.len() <= u32::MAX);
            }
        }
        write_var_col(&datas, out);
        let mut heights: Vec<u64> = Vec::new();
        let mut i: usize = 0;
        while i < n
            invariant
                i <= n,
                n == g@.len(),
                heights@.len() == i,
                forall|k: int| 0 <= k < i ==> #[trigger] heights@[k] == g@[k]@.da_height,
            decreases n - i,
        {
            heights.push(slice_index_get(g, i).da_height);
            i = i + 1;
        }
        proof {
            assert(heights@ =~= views(g@).map_values(|c: MessageV| c.da_height));
        }
        write_u64_col(&heights, out);
        proof {
            assert(out@ =~= old(out)@ + spec_u32_to_le_bytes(g@.len() as u32)
                + Self::group_cols_bytes(views(g@)));
        }
    }

    fn parse_group(r: &mut ByteReader) -> (res: Result<Vec<Self>, DecodeError>) {
        let n32 = match r.read_u32() {
            Ok(v) => v,
            Err(e) => {
                proof {
                    assert forall|g: Seq<MessageV>|
                        (g.len() <= u32::MAX && (forall|i: int|
                            0 <= i < g.len() ==> Self::wf(g[i])) && #[trigger] at(
                            *old(r),
                            spec_u32_to_le_bytes(g.len() as u32) + Self::group_cols_bytes(g),
                        )) implies false by {
                        vstd::bytes::lemma_auto_spec_u32_to_from_le_bytes();
                    }
                }
                return Err(e);
            },
        };
        let n = n32 as usize;
        let ghost r1 = *r;
        let senders_res = parse_fixed_vals(r, n, ID_WIDTH);
        let ghost r2 = *r;
        let recips_res = parse_fixed_vals(r, n, ID_WIDTH);
        let ghost r3 = *r;
        let nonces_res = parse_fixed_vals(r, n, ID_WIDTH);
        let ghost r4 = *r;
        let amts_res = parse_u64_vals(r, n);
        let ghost r5 = *r;
        let datas_res = parse_var_vals(r, n);
        let ghost r6 = *r;
        let heights_res = parse_u64_vals(r, n);
        proof {
            assert forall|g: Seq<MessageV>|
                (g.len() <= u32::MAX && (forall|i: int| 0 <= i < g.len() ==> Self::wf(g[i]))
                    && #[trigger] at(
                    *old(r),
                    spec_u32_to_le_bytes(g.len() as u32) + Self::group_cols_bytes(g),
                )) implies (n == g.len() && senders_res is Ok && recips_res is Ok && nonces_res
                is Ok && amts_res is Ok && datas_res is Ok && heights_res is Ok && bytes_views(
                senders_res->Ok_0@,
            ) == g.map_values(|c: MessageV| c.sender) && bytes_views(recips_res->Ok_0@)
                == g.map_values(|c: MessageV| c.recipient) && bytes_views(nonces_res->Ok_0@)
                == g.map_values(|c: MessageV| c.nonce) && amts_res->Ok_0@ == g.map_values(
                |c: MessageV| c.amount,
            ) && bytes_views(datas_res->Ok_0@) == g.map_values(|c: MessageV| c.data)
                && heights_res->Ok_0@ == g.map_values(|c: MessageV| c.da_height) && final(r).pos
                == old(r).pos + 4 + Self::group_cols_bytes(g).len()) by {
                vstd::bytes::lemma_auto_spec_u32_to_from_le_bytes();
                let c0 = g.map_values(|c: MessageV| c.sender);
                let c1 = g.map_values(|c: MessageV| c.recipient);
                let c2 = g.map_values(|c: MessageV| c.nonce);
                let c3 = g.map_values(|c: MessageV| c.amount);
                let c4 = g.map_values(|c: MessageV| c.data);
                let c5 = g.map_values(|c: MessageV| c.da_height);
                assert(forall|i: int| 0 <= i < c0.len() ==> c0[i].len() == ID_WIDTH);
                assert(forall|i: int| 0 <= i < c1.len() ==> c1[i].len() == ID_WIDTH);
                assert(forall|i: int| 0 <= i < c2.len() ==> c2[i].len() == ID_WIDTH);
                assert(forall|i: int| 0 <= i < c4.len() ==> c4[i].len() <= u32::MAX);
                assert(spec_u32_to_le_bytes(g.len() as u32) + Self::group_cols_bytes(g)
                    =~= spec_u32_to_le_bytes(g.len() as u32) + (fixed_col_bytes(c0)
                    + (fixed_col_bytes(c1) + (fixed_col_bytes(c2) + (u64_col_bytes(c3) + (
                    var_col_bytes(c4) + u64_col_bytes(c5)))))));
                lemma_at_split(
                    *old(r),
                    r1,
                    spec_u32_to_le_bytes(g.len() as u32),
                    fixed_col_bytes(c0) + (fixed_col_bytes(c1) + (fixed_col_bytes(c2) + (
                    u64_col_bytes(c3) + (var_col_bytes(c4) + u64_col_bytes(c5))))),
                );
                assert(n32 == g.len() as u32);
                assert(n == g.len());
                lemma_at_prefix(
                    r1,
                    fixed_col_bytes(c0),
                    fixed_col_bytes(c1) + (fixed_col_bytes(c2) + (u64_col_bytes(c3) + (
                    var_col_bytes(c4) + u64_col_bytes(c5)))),
                );
                assert(at(r1, crate::column::enc_fixed(c0)));
                assert(bytes_views(senders_res->Ok_0@) == c0);
                assert(r2.pos == r1.pos + fixed_col_bytes(c0).len());
                lemma_at_split(
                    r1,
                    r2,
                    fixed_col_bytes(c0),
                    fixed_col_bytes(c1) + (fixed_col_bytes(c2) + (u64_col_bytes(c3) + (
                    var_col_bytes(c4) + u64_col_bytes(c5)))),
                );
                lemma_at_prefix(
                    r2,
                    fixed_col_bytes(c1),
                    fixed_col_bytes(c2) + (u64_col_bytes(c3) + (var_col_bytes(c4)
                        + u64_col_bytes(c5))),
                );
                assert(at(r2, crate::column::enc_fixed(c1)));
                assert(bytes_views(recips_res->Ok_0@) == c1);
                assert(r3.pos == r2.pos + fixed_col_bytes(c1).len());
                lemma_at_split(
                    r2,
                    r3,
                    fixed_col_bytes(c1),
                    fixed_col_bytes(c2) + (u64_col_bytes(c3) + (var_col_bytes(c4)
                        + u64_col_bytes(c5))),
                );
                lemma_at_prefix(
                    r3,
                    fixed_col_bytes(c2),
                    u64_col_bytes(c3) + (var_col_bytes(c4) + u64_col_bytes(c5)),
                );
                assert(at(r3, crate::column::enc_fixed(c2)));
                assert(bytes_views(nonces_res->Ok_0@) == c2);
                assert(r4.pos == r3.pos + fixed_col_bytes(c2).len());
                lemma_at_split(
                    r3,
                    r4,
                    fixed_col_bytes(c2),
                    u64_col_bytes(c3) + (var_col_bytes(c4) + u64_col_bytes(c5)),
                );
                lemma_at_prefix(r4, u64_col_bytes(c3), var_col_bytes(c4) + u64_col_bytes(c5));
                assert(at(r4, crate::column::enc_u64s(c3)));
                assert(amts_res->Ok_0@ == c3);
                assert(r5.pos == r4.pos + u64_col_bytes(c3).len());
                lemma_at_split(r4, r5, u64_col_bytes(c3), var_col_bytes(c4) + u64_col_bytes(c5));
                lemma_at_prefix(r5, var_col_bytes(c4), u64_col_bytes(c5));
                assert(at(r5, crate::column::enc_var(c4)));
                assert(bytes_views(datas_res->Ok_0@) == c4);
                assert(r6.pos == r5.pos + var_col_bytes(c4).len());
                lemma_at_split(r5, r6, var_col_bytes(c4), u64_col_bytes(c5));
                assert(at(r6, crate::column::enc_u64s(c5)));
                assert(heights_res->Ok_0@ == c5);
            }
        }
        let senders = match senders_res {
            Ok(v) => v,
            Err(e) => {
                return Err(e);
            },
        };
        let recips = match recips_res {
            Ok(v) => v,
            Err(e) => {
                return Err(e);
            },
        };
        let nonces = match nonces_res {
            Ok(v) => v,
            Err(e) => {
                return Err(e);
            },
        };
        let amts = match amts_res {
            Ok(v) => v,
            Err(e) => {
                return Err(e);
            },
        };
        let datas = match datas_res {
            Ok(v) => v,
            Err(e) => {
                return Err(e);
            },
        };
        let heights = match heights_res {
            Ok(v) => v,
            Err(e) => {
                return Err(e);
            },
        };
        let mut out: Vec<MessageConfig> = Vec::new();
        let mut i: usize = 0;
        while i < n
            invariant
                i <= n,
                n == senders@.len(),
                n == recips@.len(),
                n == nonces@.len(),
                n == amts@.len(),
                n == datas@.len(),
                n == heights@.len(),
                out@.len() == i,
                forall|k: int|
                    0 <= k < i ==> (#[trigger] out@[k]@.sender == senders@[k]@ && out@[k]@.recipient
                        == recips@[k]@ && out@[k]@.nonce == nonces@[k]@ && out@[k]@.amount
                        == amts@[k] && out@[k]@.data == datas@[k]@ && out@[k]@.da_height
                        == heights@[k]),
            decreases n - i,
        {
            out.push(MessageConfig {
                sender: copy_bytes(&senders[i]),
                recipient: copy_bytes(&recips[i]),
                nonce: copy_bytes(&nonces[i]),
                amount: amts[i],
                data: copy_bytes(&datas[i]),
                da_height: heights[i],
            });
            i = i + 1;
        }
        proof {
            assert forall|g: Seq<MessageV>|
                (g.len() <= u32::MAX && (forall|i: int| 0 <= i < g.len() ==> Self::wf(g[i]))
                    && #[trigger] at(
                    *old(r),
                    spec_u32_to_le_bytes(g.len() as u32) + Self::group_cols_bytes(g),
                )) implies (views(out@) == g) by {
                assert forall|k: int| 0 <= k < g.len() implies views(out@)[k] == g[k] by {
                    assert(views(out@)[k] == out@[k]@);
                    assert(bytes_views(senders@)[k] == senders@[k]@);
                    assert(bytes_views(recips@)[k] == recips@[k]@);
                    assert(bytes_views(nonces@)[k] == nonces@[k]@);
                    assert(bytes_views(datas@)[k] == datas@[k]@);
                    assert(bytes_views(senders@)[k] == g.map_values(|c: MessageV| c.sender)[k]);
                    assert(bytes_views(recips@)[k] == g.map_values(|c: MessageV| c.recipient)[k]);
                    assert(bytes_views(nonces@)[k] == g.map_values(|c: MessageV| c.nonce)[k]);
                    assert(amts@[k] == g.map_values(|c: MessageV| c.amount)[k]);
                    assert(bytes_views(datas@)[k] == g.map_values(|c: MessageV| c.data)[k]);
                    assert(heights@[k] == g.map_values(|c: MessageV| c.da_height)[k]);
                    assert(out@[k]@.sender == g[k].sender);
                    assert(out@[k]@.recipient == g[k].recipient);
                    assert(out@[k]@.nonce == g[k].nonce);
                    assert(out@[k]@.amount == g[k].amount);
                    assert(out@[k]@.data == g[k].data);
                    assert(out@[k]@.da_height == g[k].da_height);
                    assert(out@[k]@ =~= g[k]);
                }
                assert(views(out@) =~= g);
            }
        }
        Ok(out)
    }
}

impl Columnar for CoinConfig {
    open spec fn record_type() -> RecordType {
        RecordType::Coin
    }

    open spec fn wf(v: CoinV) -> bool {
        coin_wf(v)
    }

    open spec fn group_cols_bytes(g: Seq<CoinV>) -> Seq<u8> {
        opt_fixed_col_bytes(g.map_values(|c: CoinV| c.tx_id)) + opt_u32_col_bytes(
            g.map_values(|c: CoinV| opt_widen8(c.output_index)),
        ) + opt_u32_col_bytes(g.map_values(|c: CoinV| c.tx_pointer_block_height))
            + opt_u32_col_bytes(g.map_values(|c: CoinV| opt_widen16(c.tx_pointer_tx_idx)))
            + opt_u32_col_bytes(g.map_values(|c: CoinV| c.maturity)) + fixed_col_bytes(
            g.map_values(|c: CoinV| c.owner),
        ) + u64_col_bytes(g.map_values(|c: CoinV| c.amount)) + fixed_col_bytes(
            g.map_values(|c: CoinV| c.asset_id),
        )
    }

    fn record_type_val() -> (rt: RecordType) {
        RecordType::Coin
    }

    fn check(&self) -> (b: bool) {
        self.check_wf()
    }

    fn write_group(g: &[Self], out: &mut Vec<u8>) {
        let n = g.len();
        write_u32(out, n as u32);
        let mut tx_ids: Vec<Option<Vec<u8>>> = Vec::new();
        let mut i: usize = 0;
        while i < n
            invariant
                i <= n,
                n == g@.len(),
                tx_ids@.len() == i,
                forall|k: int| 0 <= k < i ==> #[trigger] opt_bytes_views(tx_ids@)[k] == g@[k]@.tx_id,
            decreases n - i,
        {
            let ghost prev = tx_ids@;
            match &slice_index_get(g, i).tx_id {
                Some(v) => {
                    tx_ids.push(Some(copy_bytes(v)));
                },
                None => {
                    tx_ids.push(None);
                },
            }
            proof {
                assert forall|k: int|
                    0 <= k < i + 1 implies opt_bytes_views(tx_ids@)[k] == g@[k]@.tx_id by {
                    if k < i {
                        assert(opt_bytes_views(prev)[k] == g@[k]@.tx_id);
                        assert(tx_ids@[k] == prev[k]);
                    } else {
                        assert(opt_bytes_views(tx_ids@)[k] == (match tx_ids@[k] {
                            Some(v) => Some(v@),
                            None => None,
                        }));
                    }
                }
            }
            i = i + 1;
        }
        proof {
            assert(opt_bytes_views(tx_ids@) =~= views(g@).map_values(|c: CoinV| c.tx_id));
        }
        write_opt_fixed_col(&tx_ids, out);
        let mut oidx: Vec<Option<u32>> = Vec::new();
        let mut i: usize = 0;
        while i < n
            invariant
                i <= n,
                n == g@.len(),
                oidx@.len() == i,
                forall|k: int| 0 <= k < i ==> #[trigger] oidx@[k] == opt_widen8(
                    g@[k]@.output_index,
                ),
            decreases n - i,
        {
            match slice_index_get(g, i).output_index {
                Some(v) => {
                    oidx.push(Some(v as u32));
                },
                None => {
                    oidx.push(None);
                },
            }
            i = i + 1;
        }
        proof {
            assert(oidx@ =~= views(g@).map_values(|c: CoinV| opt_widen8(c.output_index)));
        }
        write_opt_u32_col(&oidx, out);
        let mut tpbh: Vec<Option<u32>> = Vec::new();
        let mut i: usize = 0;
        while i < n
            invariant
                i <= n,
                n == g@.len(),
                tpbh@.len() == i,
                forall|k: int| 0 <= k < i ==> #[trigger] tpbh@[k] == g@[k]@.tx_pointer_block_height,
            decreases n - i,
        {
            tpbh.push(slice_index_get(g, i).tx_pointer_block_height);
            i = i + 1;
        }
        proof {
            assert(tpbh@ =~= views(g@).map_values(|c: CoinV| c.tx_pointer_block_height));
        }
        write_opt_u32_col(&tpbh, out);
        let mut tptx: Vec<Option<u32>> = Vec::new();
        let mut i: usize = 0;
        while i < n
            invariant
                i <= n,
                n == g@.len(),
                tptx@.len() == i,
                forall|k: int| 0 <= k < i ==> #[trigger] tptx@[k] == opt_widen16(
                    g@[k]@.tx_pointer_tx_idx,
                ),
            decreases n - i,
        {
            match slice_index_get(g, i).tx_pointer_tx_idx {
                Some(v) => {
                    tptx.push(Some(v as u32));
                },
                None => {
                    tptx.push(None);
                },
            }
            i = i + 1;
        }
        proof {
            assert(tptx@ =~= views(g@).map_values(|c: CoinV| opt_widen16(c.tx_pointer_tx_idx)));
        }
        write_opt_u32_col(&tptx, out);
        let mut mats: Vec<Option<u32>> = Vec::new();
        let mut i: usize = 0;
        while i < n
            invariant
                i <= n,
                n == g@.len(),
                mats@.len() == i,
                forall|k: int| 0 <= k < i ==> #[trigger] mats@[k] == g@[k]@.maturity,
            decreases n - i,
        {
            mats.push(slice_index_get(g, i).maturity);
            i = i + 1;
        }
        proof {
            assert(mats@ =~= views(g@).map_values(|c: CoinV| c.maturity));
        }
        write_opt_u32_col(&mats, out);
        let mut owners: Vec<Vec<u8>> = Vec::new();
        let mut i: usize = 0;
        while i < n
            invariant
                i <= n,
                n == g@.len(),
                owners@.len() == i,
                forall|k: int| 0 <= k < i ==> #[trigger] owners@[k]@ == g@[k]@.owner,
            decreases n - i,
        {
            owners.push(copy_bytes(&slice_index_get(g, i).owner));
            i = i + 1;
        }
        proof {
            assert(bytes_views(owners@) =~= views(g@).map_values(|c: CoinV| c.owner));
        }
        write_fixed_col(&owners, out);
        let mut amts: Vec<u64> = Vec::new();
        let mut i: usize = 0;
        while i < n
            invariant
                i <= n,
                n == g@.len(),
                amts@.len() == i,
                forall|k: int| 0 <= k < i ==> #[trigger] amts@[k] == g@[k]@.amount,
            decreases n - i,
        {
            amts.push(slice_index_get(g, i).amount);
            i = i + 1;
        }
        proof {
            assert(amts@ =~= views(g@).map_values(|c: CoinV| c.amount));
        }
        write_u64_col(&amts, out);
        let mut assets: Vec<Vec<u8>> = Vec::new();
        let mut i: usize = 0;
        while i < n
            invariant
                i <= n,
                n == g@.len(),
                assets@.len() == i,
                forall|k: int| 0 <= k < i ==> #[trigger] assets@[k]@ == g@[k]@.asset_id,
            decreases n - i,
        {
            assets.push(copy_bytes(&slice_index_get(g, i).asset_id));
            i = i + 1;
        }
        proof {
            assert(bytes_views(assets@) =~= views(g@).map_values(|c: CoinV| c.asset_id));
        }
        write_fixed_col(&assets, out);
        proof {
            assert(out@ =~= old(out)@ + spec_u32_to_le_bytes(g@.len() as u32)
                + Self::group_cols_bytes(views(g@)));
        }
    }

    fn parse_group(r: &mut ByteReader) -> (res: Result<Vec<Self>, DecodeError>) {
        let n32 = match r.read_u32() {
            Ok(v) => v,
            Err(e) => {
                proof {
                    assert forall|g: Seq<CoinV>|
                        (g.len() <= u32::MAX && (forall|i: int|
                            0 <= i < g.len() ==> Self::wf(g[i])) && #[trigger] at(
                            *old(r),
                            spec_u32_to_le_bytes(g.len() as u32) + Self::group_cols_bytes(g),
                        )) implies false by {
                        vstd::bytes::lemma_auto_spec_u32_to_from_le_bytes();
                    }
                }
                return Err(e);
            },
        };
        let n = n32 as usize;
        let ghost r1 = *r;
        let tx_ids_res = parse_opt_fixed_col(r, n, ID_WIDTH);
        let ghost r2 = *r;
        let oidx_res = parse_opt_u32_col(r, n);
        let ghost r3 = *r;
        let tpbh_res = parse_opt_u32_col(r, n);
        let ghost r4 = *r;
        let tptx_res = parse_opt_u32_col(r, n);
        let ghost r5 = *r;
        let mats_res = parse_opt_u32_col(r, n);
        let ghost r6 = *r;
        let owners_res = parse_fixed_vals(r, n, ID_WIDTH);
        let ghost r7 = *r;
        let amts_res = parse_u64_vals(r, n);
        let ghost r8 = *r;
        let assets_res = parse_fixed_vals(r, n, ID_WIDTH);
        proof {
            assert forall|g: Seq<CoinV>|
                (g.len() <= u32::MAX && (forall|i: int| 0 <= i < g.len() ==> Self::wf(g[i]))
                    && #[trigger] at(
                    *old(r),
                    spec_u32_to_le_bytes(g.len() as u32) + Self::group_cols_bytes(g),
                )) implies (n == g.len() && tx_ids_res is Ok && oidx_res is Ok && tpbh_res is Ok
                && tptx_res is Ok && mats_res is Ok && owners_res is Ok && amts_res is Ok
                && assets_res is Ok && opt_bytes_views(tx_ids_res->Ok_0@) == g.map_values(
                |c: CoinV| c.tx_id,
            ) && oidx_res->Ok_0@ == g.map_values(|c: CoinV| opt_widen8(c.output_index))
                && tpbh_res->Ok_0@ == g.map_values(|c: CoinV| c.tx_pointer_block_height)
                && tptx_res->Ok_0@ == g.map_values(|c: CoinV| opt_widen16(c.tx_pointer_tx_idx))
                && mats_res->Ok_0@ == g.map_values(|c: CoinV| c.maturity) && bytes_views(
                owners_res->Ok_0@,
            ) == g.map_values(|c: CoinV| c.owner) && amts_res->Ok_0@ == g.map_values(
                |c: CoinV| c.amount,
            ) && bytes_views(assets_res->Ok_0@) == g.map_values(|c: CoinV| c.asset_id)
                && final(r).pos == old(r).pos + 4 + Self::group_cols_bytes(g).len()) by {
                vstd::bytes::lemma_auto_spec_u32_to_from_le_bytes();
                let c0 = g.map_values(|c: CoinV| c.tx_id);
                let c1 = g.map_values(|c: CoinV| opt_widen8(c.output_index));
                let c2 = g.map_values(|c: CoinV| c.tx_pointer_block_height);
                let c3 = g.map_values(|c: CoinV| opt_widen16(c.tx_pointer_tx_idx));
                let c4 = g.map_values(|c: CoinV| c.maturity);
                let c5 = g.map_values(|c: CoinV| c.owner);
                let c6 = g.map_values(|c: CoinV| c.amount);
                let c7 = g.map_values(|c: CoinV| c.asset_id);
                assert(forall|i: int|
                    0 <= i < c0.len() ==> (c0[i] is Some ==> c0[i]->0.len() == ID_WIDTH));
                assert(forall|i: int| 0 <= i < c5.len() ==> c5[i].len() == ID_WIDTH);
                assert(forall|i: int| 0 <= i < c7.len() ==> c7[i].len() == ID_WIDTH);
                let rest1 = opt_u32_col_bytes(c1) + (opt_u32_col_bytes(c2) + (opt_u32_col_bytes(
                    c3,
                ) + (opt_u32_col_bytes(c4) + (fixed_col_bytes(c5) + (u64_col_bytes(c6)
                    + fixed_col_bytes(c7))))));
                assert(spec_u32_to_le_bytes(g.len() as u32) + Self::group_cols_bytes(g)
                    =~= spec_u32_to_le_bytes(g.len() as u32) + (opt_fixed_col_bytes(c0) + rest1));
                lemma_at_split(
                    *old(r),
                    r1,
                    spec_u32_to_le_bytes(g.len() as u32),
                    opt_fixed_col_bytes(c0) + rest1,
                );
                assert(n32 == g.len() as u32);
                assert(n == g.len());
                lemma_at_prefix(r1, opt_fixed_col_bytes(c0), rest1);
                assert(at(r1, opt_fixed_col_bytes(c0)));
                assert(opt_bytes_views(tx_ids_res->Ok_0@) == c0);
                assert(r2.pos == r1.pos + opt_fixed_col_bytes(c0).len());
                lemma_at_split(r1, r2, opt_fixed_col_bytes(c0), rest1);
                let rest2 = opt_u32_col_bytes(c2) + (opt_u32_col_bytes(c3) + (opt_u32_col_bytes(
                    c4,
                ) + (fixed_col_bytes(c5) + (u64_col_bytes(c6) + fixed_col_bytes(c7)))));
                assert(rest1 =~= opt_u32_col_bytes(c1) + rest2);
                lemma_at_prefix(r2, opt_u32_col_bytes(c1), rest2);
                assert(at(r2, opt_u32_col_bytes(c1)));
                assert(oidx_res->Ok_0@ == c1);
                assert(r3.pos == r2.pos + opt_u32_col_bytes(c1).len());
                lemma_at_split(r2, r3, opt_u32_col_bytes(c1), rest2);
                let rest3 = opt_u32_col_bytes(c3) + (opt_u32_col_bytes(c4) + (fixed_col_bytes(
                    c5,
                ) + (u64_col_bytes(c6) + fixed_col_bytes(c7))));
                assert(rest2 =~= opt_u32_col_bytes(c2) + rest3);
                lemma_at_prefix(r3, opt_u32_col_bytes(c2), rest3);
                assert(at(r3, opt_u32_col_bytes(c2)));
                assert(tpbh_res->Ok_0@ == c2);
                assert(r4.pos == r3.pos + opt_u32_col_bytes(c2).len());
                lemma_at_split(r3, r4, opt_u32_col_bytes(c2), rest3);
                let rest4 = opt_u32_col_bytes(c4) + (fixed_col_bytes(c5) + (u64_col_bytes(c6)
                    + fixed_col_bytes(c7)));
                assert(rest3 =~= opt_u32_col_bytes(c3) + rest4);
                lemma_at_prefix(r4, opt_u32_col_bytes(c3), rest4);
                assert(at(r4, opt_u32_col_bytes(c3)));
                assert(tptx_res->Ok_0@ == c3);
                assert(r5.pos == r4.pos + opt_u32_col_bytes(c3).len());
                lemma_at_split(r4, r5, opt_u32_col_bytes(c3), rest4);
                let rest5 = fixed_col_bytes(c5) + (u64_col_bytes(c6) + fixed_col_bytes(c7));
                assert(rest4 =~= opt_u32_col_bytes(c4) + rest5);
                lemma_at_prefix(r5, opt_u32_col_bytes(c4), rest5);
                assert(at(r5, opt_u32_col_bytes(c4)));
                assert(mats_res->Ok_0@ == c4);
                assert(r6.pos == r5.pos + opt_u32_col_bytes(c4).len());
                lemma_at_split(r5, r6, opt_u32_col_bytes(c4), rest5);
                let rest6 = u64_col_bytes(c6) + fixed_col_bytes(c7);
                assert(rest5 =~= fixed_col_bytes(c5) + rest6);
                lemma_at_prefix(r6, fixed_col_bytes(c5), rest6);
                assert(at(r6, crate::column::enc_fixed(c5)));
                assert(bytes_views(owners_res->Ok_0@) == c5);
                assert(r7.pos == r6.pos + fixed_col_bytes(c5).len());
                lemma_at_split(r6, r7, fixed_col_bytes(c5), rest6);
                lemma_at_prefix(r7, u64_col_bytes(c6), fixed_col_bytes(c7));
                assert(at(r7, crate::column::enc_u64s(c6)));
                assert(amts_res->Ok_0@ == c6);
                assert(r8.pos == r7.pos + u64_col_bytes(c6).len());
                lemma_at_split(r7, r8, u64_col_bytes(c6), fixed_col_bytes(c7));
                assert(at(r8, crate::column::enc_fixed(c7)));
                assert(bytes_views(assets_res->Ok_0@) == c7);
            }
        }
        let tx_ids = match tx_ids_res {
            Ok(v) => v,
            Err(e) => {
                return Err(e);
            },
        };
        let oidx = match oidx_res {
            Ok(v) => v,
            Err(e) => {
                return Err(e);
            },
        };
        let tpbh = match tpbh_res {
            Ok(v) => v,
            Err(e) => {
                return Err(e);
            },
        };
        let tptx = match tptx_res {
            Ok(v) => v,
            Err(e) => {
                return Err(e);
            },
        };
        let mats = match mats_res {
            Ok(v) => v,
            Err(e) => {
                return Err(e);
            },
        };
        let owners = match owners_res {
            Ok(v) => v,
            Err(e) => {
                return Err(e);
            },
        };
        let amts = match amts_res {
            Ok(v) => v,
            Err(e) => {
                return Err(e);
            },
        };
        let assets = match assets_res {
            Ok(v) => v,
            Err(e) => {
                return Err(e);
            },
        };
        let mut out: Vec<CoinConfig> = Vec::new();
        let mut i: usize = 0;
        #[verifier::loop_isolation(false)]
        while i < n
            invariant
                i <= n,
                n == tx_ids@.len(),
                n == oidx@.len(),
                n == tpbh@.len(),
                n == tptx@.len(),
                n == mats@.len(),
                n == owners@.len(),
                n == amts@.len(),
                n == assets@.len(),
                out@.len() == i,
                forall|k: int|
                    0 <= k < i ==> (#[trigger] out@[k]@.tx_id == opt_bytes_views(tx_ids@)[k]
                        && opt_widen8(out@[k]@.output_index) == oidx@[k]
                        && out@[k]@.tx_pointer_block_height == tpbh@[k] && opt_widen16(
                        out@[k]@.tx_pointer_tx_idx,
                    ) == tptx@[k] && out@[k]@.maturity == mats@[k] && out@[k]@.owner == owners@[k]@
                        && out@[k]@.amount == amts@[k] && out@[k]@.asset_id == assets@[k]@),
            decreases n - i,
        {
            let output_index: Option<u8> = match oidx[i] {
                Some(v) => {
                    if v > 255 {
                        proof {
                            assert forall|g: Seq<CoinV>|
                                (g.len() <= u32::MAX && (forall|j: int|
                                    0 <= j < g.len() ==> Self::wf(g[j])) && #[trigger] at(
                                    *old(r),
                                    spec_u32_to_le_bytes(g.len() as u32) + Self::group_cols_bytes(
                                        g,
                                    ),
                                )) implies false by {
                                assert(oidx@[i as int] == g.map_values(
                                    |c: CoinV| opt_widen8(c.output_index),
                                )[i as int]);
                            }
                        }
                        return Err(DecodeError::ValueOutOfRange);
                    }
                    Some(v as u8)
                },
                None => None,
            };
            let tx_pointer_tx_idx: Option<u16> = match tptx[i] {
                Some(v) => {
                    if v > 65535 {
                        proof {
                            assert forall|g: Seq<CoinV>|
                                (g.len() <= u32::MAX && (forall|j: int|
                                    0 <= j < g.len() ==> Self::wf(g[j])) && #[trigger] at(
                                    *old(r),
                                    spec_u32_to_le_bytes(g.len() as u32) + Self::group_cols_bytes(
                                        g,
                                    ),
                                )) implies false by {
                                assert(tptx@[i as int] == g.map_values(
                                    |c: CoinV| opt_widen16(c.tx_pointer_tx_idx),
                                )[i as int]);
                            }
                        }
                        return Err(DecodeError::ValueOutOfRange);
                    }
                    Some(v as u16)
                },
                None => None,
            };
            let tx_id: Option<Vec<u8>> = match &tx_ids[i] {
                Some(v) => Some(copy_bytes(v)),
                None => None,
            };
            out.push(CoinConfig {
                tx_id,
                output_index,
                tx_pointer_block_height: tpbh[i],
                tx_pointer_tx_idx,
                maturity: mats[i],
                owner: copy_bytes(&owners[i]),
                amount: amts[i],
                asset_id: copy_bytes(&assets[i]),
            });
            proof {
                assert(out@[i as int]@.tx_id == opt_bytes_views(tx_ids@)[i as int]);
            }
            i = i + 1;
        }
        proof {
            assert forall|g: Seq<CoinV>|
                (g.len() <= u32::MAX && (forall|i: int| 0 <= i < g.len() ==> Self::wf(g[i]))
                    && #[trigger] at(
                    *old(r),
                    spec_u32_to_le_bytes(g.len() as u32) + Self::group_cols_bytes(g),
                )) implies (views(out@) == g) by {
                assert forall|k: int| 0 <= k < g.len() implies views(out@)[k] == g[k] by {
                    assert(views(out@)[k] == out@[k]@);
                    assert(opt_bytes_views(tx_ids@)[k] == g.map_values(|c: CoinV| c.tx_id)[k]);
                    assert(oidx@[k] == g.map_values(|c: CoinV| opt_widen8(c.output_index))[k]);
                    assert(tpbh@[k] == g.map_values(|c: CoinV| c.tx_pointer_block_height)[k]);
                    assert(tptx@[k] == g.map_values(
                        |c: CoinV| opt_widen16(c.tx_pointer_tx_idx),
                    )[k]);
                    assert(mats@[k] == g.map_values(|c: CoinV| c.maturity)[k]);
                    assert(bytes_views(owners@)[k] == owners@[k]@);
                    assert(bytes_views(owners@)[k] == g.map_values(|c: CoinV| c.owner)[k]);
                    assert(amts@[k] == g.map_values(|c: CoinV| c.amount)[k]);
                    assert(bytes_views(assets@)[k] == assets@[k]@);
                    assert(bytes_views(assets@)[k] == g.map_values(|c: CoinV| c.asset_id)[k]);
                    assert(out@[k]@.tx_id == g[k].tx_id);
                    assert(opt_widen8(out@[k]@.output_index) == opt_widen8(g[k].output_index));
                    assert(out@[k]@.output_index == g[k].output_index);
                    assert(out@[k]@.tx_pointer_block_height == g[k].tx_pointer_block_height);
                    assert(opt_widen16(out@[k]@.tx_pointer_tx_idx) == opt_widen16(
                        g[k].tx_pointer_tx_idx,
                    ));
                    assert(out@[k]@.tx_pointer_tx_idx == g[k].tx_pointer_tx_idx);
                    assert(out@[k]@.maturity == g[k].maturity);
                    assert(out@[k]@.owner == g[k].owner);
                    assert(out@[k]@.amount == g[k].amount);
                    assert(out@[k]@.asset_id == g[k].asset_id);
                    assert(out@[k]@ =~= g[k]);
                }
                assert(views(out@) =~= g);
            }
        }
        Ok(out)
    }
}

impl Columnar for ContractConfig {
    open spec fn record_type() -> RecordType {
        RecordType::Contract
    }

    open spec fn wf(v: ContractV) -> bool {
        contract_wf(v)
    }

    open spec fn group_cols_bytes(g: Seq<ContractV>) -> Seq<u8> {
        fixed_col_bytes(g.map_values(|c: ContractV| c.contract_id)) + var_col_bytes(
            g.map_values(|c: ContractV| c.code),
        ) + fixed_col_bytes(g.map_values(|c: ContractV| c.salt)) + opt_fixed_col_bytes(
            g.map_values(|c: ContractV| c.tx_id),
        ) + opt_u32_col_bytes(g.map_values(|c: ContractV| opt_widen8(c.output_index)))
            + opt_u32_col_bytes(g.map_values(|c: ContractV| c.tx_pointer_block_height))
            + opt_u32_col_bytes(g.map_values(|c: ContractV| opt_widen16(c.tx_pointer_tx_idx)))
    }

    fn record_type_val() -> (rt: RecordType) {
        RecordType::Contract
    }

    fn check(&self) -> (b: bool) {
        self.check_wf()
    }

    fn write_group(g: &[Self], out: &mut Vec<u8>) {
        let n = g.len();
        write_u32(out, n as u32);
        let mut cids: Vec<Vec<u8>> = Vec::new();
        let mut i: usize = 0;
        while i < n
            invariant
                i <= n,
                n == g@.len(),
                cids@.len() == i,
                forall|k: int| 0 <= k < i ==> #[trigger] cids@[k]@ == g@[k]@.contract_id,
            decreases n - i,
        {
            cids.push(copy_bytes(&slice_index_get(g, i).contract_id));
            i = i + 1;
        }
        proof {
            assert(bytes_views(cids@) =~= views(g@).map_values(|c: ContractV| c.contract_id));
        }
        write_fixed_col(&cids, out);
        let mut codes: Vec<Vec<u8>> = Vec::new();
        let mut i: usize = 0;
        while i < n
            invariant
                i <= n,
                n == g@.len(),
                codes@.len() == i,
                forall|k: int| 0 <= k < i ==> #[trigger] codes@[k]@ == g@[k]@.code,
            decreases n - i,
        {
            codes.push(copy_bytes(&slice_index_get(g, i).code));
            i = i + 1;
        }
        proof {
            assert(bytes_views(codes@) =~= views(g@).map_values(|c: ContractV| c.code));
            assert forall|k: int| 0 <= k < codes@.len() implies codes@[k]@.len() <= u32::MAX by {
                assert(g@[k]@.code.len() <= u32::MAX);
            }
        }
        write_var_col(&codes, out);
        let mut salts: Vec<Vec<u8>> = Vec::new();
        let mut i: usize = 0;
        while i < n
            invariant
                i <= n,
                n == g@.len(),
                salts@.len() == i,
                forall|k: int| 0 <= k < i ==> #[trigger] salts@[k]@ == g@[k]@.salt,
            decreases n - i,
        {
            salts.push(copy_bytes(&slice_index_get(g, i).salt));
            i = i + 1;
        }
        proof {
            assert(bytes_views(salts@) =~= views(g@).map_values(|c: ContractV| c.salt));
        }
        write_fixed_col(&salts, out);
        let mut tx_ids: Vec<Option<Vec<u8>>> = Vec::new();
        let mut i: usize = 0;
        while i < n
            invariant
                i <= n,
                n == g@.len(),
                tx_ids@.len() == i,
                forall|k: int| 0 <= k < i ==> #[trigger] opt_bytes_views(tx_ids@)[k] == g@[k]@.tx_id,
            decreases n - i,
        {
            let ghost prev = tx_ids@;
            match &slice_index_get(g, i).tx_id {
                Some(v) => {
                    tx_ids.push(Some(copy_bytes(v)));
                },
                None => {
                    tx_ids.push(None);
                },
            }
            proof {
                assert forall|k: int|
                    0 <= k < i + 1 implies opt_bytes_views(tx_ids@)[k] == g@[k]@.tx_id by {
                    if k < i {
                        assert(opt_bytes_views(prev)[k] == g@[k]@.tx_id);
                        assert(tx_ids@[k] == prev[k]);
                    } else {
                        assert(opt_bytes_views(tx_ids@)[k] == (match tx_ids@[k] {
                            Some(v) => Some(v@),
                            None => None,
                        }));
                    }
                }
            }
            i = i + 1;
        }
        proof {
            assert(opt_bytes_views(tx_ids@) =~= views(g@).map_values(|c: ContractV| c.tx_id));
        }
        write_opt_fixed_col(&tx_ids, out);
        let mut oidx: Vec<Option<u32>> = Vec::new();
        let mut i: usize = 0;
        while i < n
            invariant
                i <= n,
                n == g@.len(),
                oidx@.len() == i,
                forall|k: int| 0 <= k < i ==> #[trigger] oidx@[k] == opt_widen8(
                    g@[k]@.output_index,
                ),
            decreases n - i,
        {
            match slice_index_get(g, i).output_index {
                Some(v) => {
                    oidx.push(Some(v as u32));
                },
                None => {
                    oidx.push(None);
                },
            }
            i = i + 1;
        }
        proof {
            assert(oidx@ =~= views(g@).map_values(|c: ContractV| opt_widen8(c.output_index)));
        }
        write_opt_u32_col(&oidx, out);
        let mut tpbh: Vec<Option<u32>> = Vec::new();
        let mut i: usize = 0;
        while i < n
            invariant
                i <= n,
                n == g@.len(),
                tpbh@.len() == i,
                forall|k: int| 0 <= k < i ==> #[trigger] tpbh@[k] == g@[k]@.tx_pointer_block_height,
            decreases n - i,
        {
            tpbh.push(slice_index_get(g, i).tx_pointer_block_height);
            i = i + 1;
        }
        proof {
            assert(tpbh@ =~= views(g@).map_values(|c: ContractV| c.tx_pointer_block_height));
        }
        write_opt_u32_col(&tpbh, out);
        let mut tptx: Vec<Option<u32>> = Vec::new();
        let mut i: usize = 0;
        while i < n
            invariant
                i <= n,
                n == g@.len(),
                tptx@.len() == i,
                forall|k: int| 0 <= k < i ==> #[trigger] tptx@[k] == opt_widen16(
                    g@[k]@.tx_pointer_tx_idx,
                ),
            decreases n - i,
        {
            match slice_index_get(g, i).tx_pointer_tx_idx {
                Some(v) => {
                    tptx.push(Some(v as u32));
                },
                None => {
                    tptx.push(None);
                },
            }
            i = i + 1;
        }
        proof {
            assert(tptx@ =~= views(g@).map_values(|c: ContractV| opt_widen16(c.tx_pointer_tx_idx)));
        }
        write_opt_u32_col(&tptx, out);
        proof {
            assert(out@ =~= old(out)@ + spec_u32_to_le_bytes(g@.len() as u32)
                + Self::group_cols_bytes(views(g@)));
        }
    }

    fn parse_group(r: &mut ByteReader) -> (res: Result<Vec<Self>, DecodeError>) {
        let n32 = match r.read_u32() {
            Ok(v) => v,
            Err(e) => {
                proof {
                    assert forall|g: Seq<ContractV>|
                        (g.len() <= u32::MAX && (forall|i: int|
                            0 <= i < g.len() ==> Self::wf(g[i])) && #[trigger] at(
                            *old(r),
                            spec_u32_to_le_bytes(g.len() as u32) + Self::group_cols_bytes(g),
                        )) implies false by {
                        vstd::bytes::lemma_auto_spec_u32_to_from_le_bytes();
                    }
                }
                return Err(e);
            },
        };
        let n = n32 as usize;
        let ghost r1 = *r;
        let cids_res = parse_fixed_vals(r, n, ID_WIDTH);
        let ghost r2 = *r;
        let codes_res = parse_var_vals(r, n);
        let ghost r3 = *r;
        let salts_res = parse_fixed_vals(r, n, ID_WIDTH);
        let ghost r4 = *r;
        let tx_ids_res = parse_opt_fixed_col(r, n, ID_WIDTH);
        let ghost r5 = *r;
        let oidx_res = parse_opt_u32_col(r, n);
        let ghost r6 = *r;
        let tpbh_res = parse_opt_u32_col(r, n);
        let ghost r7 = *r;
        let tptx_res = parse_opt_u32_col(r, n);
        proof {
            assert forall|g: Seq<ContractV>|
                (g.len() <= u32::MAX && (forall|i: int| 0 <= i < g.len() ==> Self::wf(g[i]))
                    && #[trigger] at(
                    *old(r),
                    spec_u32_to_le_bytes(g.len() as u32) + Self::group_cols_bytes(g),
                )) implies (n == g.len() && cids_res is Ok && codes_res is Ok && salts_res is Ok
                && tx_ids_res is Ok && oidx_res is Ok && tpbh_res is Ok && tptx_res is Ok
                && bytes_views(cids_res->Ok_0@) == g.map_values(|c: ContractV| c.contract_id)
                && bytes_views(codes_res->Ok_0@) == g.map_values(|c: ContractV| c.code)
                && bytes_views(salts_res->Ok_0@) == g.map_values(|c: ContractV| c.salt)
                && opt_bytes_views(tx_ids_res->Ok_0@) == g.map_values(|c: ContractV| c.tx_id)
                && oidx_res->Ok_0@ == g.map_values(|c: ContractV| opt_widen8(c.output_index))
                && tpbh_res->Ok_0@ == g.map_values(|c: ContractV| c.tx_pointer_block_height)
                && tptx_res->Ok_0@ == g.map_values(|c: ContractV| opt_widen16(c.tx_pointer_tx_idx))
                && final(r).pos == old(r).pos + 4 + Self::group_cols_bytes(g).len()) by {
                vstd::bytes::lemma_auto_spec_u32_to_from_le_bytes();
                let c0 = g.map_values(|c: ContractV| c.contract_id);
                let c1 = g.map_values(|c: ContractV| c.code);
                let c2 = g.map_values(|c: ContractV| c.salt);
                let c3 = g.map_values(|c: ContractV| c.tx_id);
                let c4 = g.map_values(|c: ContractV| opt_widen8(c.output_index));
                let c5 = g.map_values(|c: ContractV| c.tx_pointer_block_height);
                let c6 = g.map_values(|c: ContractV| opt_widen16(c.tx_pointer_tx_idx));
                assert(forall|i: int| 0 <= i < c0.len() ==> c0[i].len() == ID_WIDTH);
                assert(forall|i: int| 0 <= i < c1.len() ==> c1[i].len() <= u32::MAX);
                assert(forall|i: int| 0 <= i < c2.len() ==> c2[i].len() == ID_WIDTH);
                assert(forall|i: int|
                    0 <= i < c3.len() ==> (c3[i] is Some ==> c3[i]->0.len() == ID_WIDTH));
                let rest1 = var_col_bytes(c1) + (fixed_col_bytes(c2) + (opt_fixed_col_bytes(c3) + (
                opt_u32_col_bytes(c4) + (opt_u32_col_bytes(c5) + opt_u32_col_bytes(c6)))));
                assert(spec_u32_to_le_bytes(g.len() as u32) + Self::group_cols_bytes(g)
                    =~= spec_u32_to_le_bytes(g.len() as u32) + (fixed_col_bytes(c0) + rest1));
                lemma_at_split(
                    *old(r),
                    r1,
                    spec_u32_to_le_bytes(g.len() as u32),
                    fixed_col_bytes(c0) + rest1,
                );
                assert(n32 == g.len() as u32);
                assert(n == g.len());
                lemma_at_prefix(r1, fixed_col_bytes(c0), rest1);
                assert(at(r1, crate::column::enc_fixed(c0)));
                assert(bytes_views(cids_res->Ok_0@) == c0);
                assert(r2.pos == r1.pos + fixed_col_bytes(c0).len());
                lemma_at_split(r1, r2, fixed_col_bytes(c0), rest1);
                let rest2 = fixed_col_bytes(c2) + (opt_fixed_col_bytes(c3) + (opt_u32_col_bytes(
                    c4,
                ) + (opt_u32_col_bytes(c5) + opt_u32_col_bytes(c6))));
                assert(rest1 =~= var_col_bytes(c1) + rest2);
                lemma_at_prefix(r2, var_col_bytes(c1), rest2);
                assert(at(r2, crate::column::enc_var(c1)));
                assert(bytes_views(codes_res->Ok_0@) == c1);
                assert(r3.pos == r2.pos + var_col_bytes(c1).len());
                lemma_at_split(r2, r3, var_col_bytes(c1), rest2);
                let rest3 = opt_fixed_col_bytes(c3) + (opt_u32_col_bytes(c4) + (opt_u32_col_bytes(
                    c5,
                ) + opt_u32_col_bytes(c6)));
                assert(rest2 =~= fixed_col_bytes(c2) + rest3);
                lemma_at_prefix(r3, fixed_col_bytes(c2), rest3);
                assert(at(r3, crate::column::enc_fixed(c2)));
                assert(bytes_views(salts_res->Ok_0@) == c2);
                assert(r4.pos == r3.pos + fixed_col_bytes(c2).len());
                lemma_at_split(r3, r4, fixed_col_bytes(c2), rest3);
                let rest4 = opt_u32_col_bytes(c4) + (opt_u32_col_bytes(c5) + opt_u32_col_bytes(
                    c6,
                ));
                assert(rest3 =~= opt_fixed_col_bytes(c3) + rest4);
                lemma_at_prefix(r4, opt_fixed_col_bytes(c3), rest4);
                assert(at(r4, opt_fixed_col_bytes(c3)));
                assert(opt_bytes_views(tx_ids_res->Ok_0@) == c3);
                assert(r5.pos == r4.pos + opt_fixed_col_bytes(c3).len());
                lemma_at_split(r4, r5, opt_fixed_col_bytes(c3), rest4);
                let rest5 = opt_u32_col_bytes(c5) + opt_u32_col_bytes(c6);
                assert(rest4 =~= opt_u32_col_bytes(c4) + rest5);
                lemma_at_prefix(r5, opt_u32_col_bytes(c4), rest5);
                assert(at(r5, opt_u32_col_bytes(c4)));
                assert(oidx_res->Ok_0@ == c4);
                assert(r6.pos == r5.pos + opt_u32_col_bytes(c4).len());
                lemma_at_split(r5, r6, opt_u32_col_bytes(c4), rest5);
                lemma_at_prefix(r6, opt_u32_col_bytes(c5), opt_u32_col_bytes(c6));
                assert(at(r6, opt_u32_col_bytes(c5)));
                assert(tpbh_res->Ok_0@ == c5);
                assert(r7.pos == r6.pos + opt_u32_col_bytes(c5).len());
                lemma_at_split(r6, r7, opt_u32_col_bytes(c5), opt_u32_col_bytes(c6));
                assert(at(r7, opt_u32_col_bytes(c6)));
                assert(tptx_res->Ok_0@ == c6);
            }
        }
        let cids = match cids_res {
            Ok(v) => v,
            Err(e) => {
                return Err(e);
            },
        };
        let codes = match codes_res {
            Ok(v) => v,
            Err(e) => {
                return Err(e);
            },
        };
        let salts = match salts_res {
            Ok(v) => v,
            Err(e) => {
                return Err(e);
            },
        };
        let tx_ids = match tx_ids_res {
            Ok(v) => v,
            Err(e) => {
                return Err(e);
            },
        };
        let oidx = match oidx_res {
            Ok(v) => v,
            Err(e) => {
                return Err(e);
            },
        };
        let tpbh = match tpbh_res {
            Ok(v) => v,
            Err(e) => {
                return Err(e);
            },
        };
        let tptx = match tptx_res {
            Ok(v) => v,
            Err(e) => {
                return Err(e);
            },
        };
        let mut out: Vec<ContractConfig> = Vec::new();
        let mut i: usize = 0;
        #[verifier::loop_isolation(false)]
        while i < n
            invariant
                i <= n,
                n == cids@.len(),
                n == codes@.len(),
                n == salts@.len(),
                n == tx_ids@.len(),
                n == oidx@.len(),
                n == tpbh@.len(),
                n == tptx@.len(),
                out@.len() == i,
                forall|k: int|
                    0 <= k < i ==> (#[trigger] out@[k]@.contract_id == cids@[k]@ && out@[k]@.code
                        == codes@[k]@ && out@[k]@.salt == salts@[k]@ && out@[k]@.tx_id
                        == opt_bytes_views(tx_ids@)[k] && opt_widen8(out@[k]@.output_index)
                        == oidx@[k] && out@[k]@.tx_pointer_block_height == tpbh@[k] && opt_widen16(
                        out@[k]@.tx_pointer_tx_idx,
                    ) == tptx@[k]),
            decreases n - i,
        {
            let output_index: Option<u8> = match oidx[i] {
                Some(v) => {
                    if v > 255 {
                        proof {
                            assert forall|g: Seq<ContractV>|
                                (g.len() <= u32::MAX && (forall|j: int|
                                    0 <= j < g.len() ==> Self::wf(g[j])) && #[trigger] at(
                                    *old(r),
                                    spec_u32_to_le_bytes(g.len() as u32) + Self::group_cols_bytes(
                                        g,
                                    ),
                                )) implies false by {
                                assert(oidx@[i as int] == g.map_values(
                                    |c: ContractV| opt_widen8(c.output_index),
                                )[i as int]);
                            }
                        }
                        return Err(DecodeError::ValueOutOfRange);
                    }
                    Some(v as u8)
                },
                None => None,
            };
            let tx_pointer_tx_idx: Option<u16> = match tptx[i] {
                Some(v) => {
                    if v > 65535 {
                        proof {
                            assert forall|g: Seq<ContractV>|
                                (g.len() <= u32::MAX && (forall|j: int|
                                    0 <= j < g.len() ==> Self::wf(g[j])) && #[trigger] at(
                                    *old(r),
                                    spec_u32_to_le_bytes(g.len() as u32) + Self::group_cols_bytes(
                                        g,
                                    ),
                                )) implies false by {
                                assert(tptx@[i as int] == g.map_values(
                                    |c: ContractV| opt_widen16(c.tx_pointer_tx_idx),
                                )[i as int]);
                            }
                        }
                        return Err(DecodeError::ValueOutOfRange);
                    }
                    Some(v as u16)
                },
                None => None,
            };
            let tx_id: Option<Vec<u8>> = match &tx_ids[i] {
                Some(v) => Some(copy_bytes(v)),
                None => None,
            };
            out.push(ContractConfig {
                contract_id: copy_bytes(&cids[i]),
                code: copy_bytes(&codes[i]),
                salt: copy_bytes(&salts[i]),
                tx_id,
                output_index,
                tx_pointer_block_height: tpbh[i],
                tx_pointer_tx_idx,
            });
            proof {
                assert(out@[i as int]@.tx_id == opt_bytes_views(tx_ids@)[i as int]);
            }
            i = i + 1;
        }
        proof {
            assert forall|g: Seq<ContractV>|
                (g.len() <= u32::MAX && (forall|i: int| 0 <= i < g.len() ==> Self::wf(g[i]))
                    && #[trigger] at(
                    *old(r),
                    spec_u32_to_le_bytes(g.len() as u32) + Self::group_cols_bytes(g),
                )) implies (views(out@) == g) by {
                assert forall|k: int| 0 <= k < g.len() implies views(out@)[k] == g[k] by {
                    assert(views(out@)[k] == out@[k]@);
                    assert(bytes_views(cids@)[k] == cids@[k]@);
                    assert(bytes_views(codes@)[k] == codes@[k]@);
                    assert(bytes_views(salts@)[k] == salts@[k]@);
                    assert(bytes_views(cids@)[k] == g.map_values(|c: ContractV| c.contract_id)[k]);
                    assert(bytes_views(codes@)[k] == g.map_values(|c: ContractV| c.code)[k]);
                    assert(bytes_views(salts@)[k] == g.map_values(|c: ContractV| c.salt)[k]);
                    assert(opt_bytes_views(tx_ids@)[k] == g.map_values(|c: ContractV| c.tx_id)[k]);
                    assert(oidx@[k] == g.map_values(|c: ContractV| opt_widen8(c.output_index))[k]);
                    assert(tpbh@[k] == g.map_values(
                        |c: ContractV| c.tx_pointer_block_height,
                    )[k]);
                    assert(tptx@[k] == g.map_values(
                        |c: ContractV| opt_widen16(c.tx_pointer_tx_idx),
                    )[k]);
                    assert(out@[k]@.contract_id == g[k].contract_id);
                    assert(out@[k]@.code == g[k].code);
                    assert(out@[k]@.salt == g[k].salt);
                    assert(out@[k]@.tx_id == g[k].tx_id);
                    assert(opt_widen8(out@[k]@.output_index) == opt_widen8(g[k].output_index));
                    assert(out@[k]@.output_index == g[k].output_index);
                    assert(out@[k]@.tx_pointer_block_height == g[k].tx_pointer_block_height);
                    assert(opt_widen16(out@[k]@.tx_pointer_tx_idx) == opt_widen16(
                        g[k].tx_pointer_tx_idx,
                    ));
                    assert(out@[k]@.tx_pointer_tx_idx == g[k].tx_pointer_tx_idx);
                    assert(out@[k]@ =~= g[k]);
                }
                assert(views(out@) =~= g);
            }
        }
        Ok(out)
    }
}

} // verus!
