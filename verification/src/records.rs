//! The five record types of the snapshot, their mathematical views, and
//! their well-formedness conditions.
//!
//! Fixed-width byte fields (identifiers, hashes, addresses) are held as
//! owned byte vectors whose length the well-formedness condition pins to 32;
//! variable-length fields (bytecode, message payload) may have any length
//! that fits a 32-bit length prefix.

use vstd::prelude::*;

verus! {

/// The fixed width of hashes, addresses and other identifier fields.
pub const ID_WIDTH: usize = 32;

// ---------------------------------------------------------------------------
// Records
// ---------------------------------------------------------------------------

/// A coin: an unspent output.
#[derive(Debug, Clone, PartialEq, Eq)]
pub struct CoinConfig {
    /// Transaction that created the coin; auto-generated when absent.
    pub tx_id: Option<Vec<u8>>,
    pub output_index: Option<u8>,
    /// Kept when the coin is forked from another chain.
    pub tx_pointer_block_height: Option<u32>,
    /// The index of the originating transaction within that block.
    pub tx_pointer_tx_idx: Option<u16>,
    pub maturity: Option<u32>,
    pub owner: Vec<u8>,
    pub amount: u64,
    pub asset_id: Vec<u8>,
}

/// A message from the data-availability layer.
#[derive(Debug, Clone, PartialEq, Eq)]
pub struct MessageConfig {
    pub sender: Vec<u8>,
    pub recipient: Vec<u8>,
    pub nonce: Vec<u8>,
    pub amount: u64,
    pub data: Vec<u8>,
    /// The block height of the parent da layer that originated this message.
    pub da_height: u64,
}

/// A deployed contract.
#[derive(Debug, Clone, PartialEq, Eq)]
pub struct ContractConfig {
    pub contract_id: Vec<u8>,
    pub code: Vec<u8>,
    pub salt: Vec<u8>,
    /// Transaction that deployed the contract; auto-generated when absent.
    pub tx_id: Option<Vec<u8>>,
    pub output_index: Option<u8>,
    /// Kept when the contract is forked from another chain.
    pub tx_pointer_block_height: Option<u32>,
    /// The index of the originating transaction within that block.
    pub tx_pointer_tx_idx: Option<u16>,
}

/// One slot of a contract's storage.
#[derive(Debug, Clone, PartialEq, Eq)]
pub struct ContractState {
    pub key: Vec<u8>,
    pub value: Vec<u8>,
}

/// One asset balance of a contract.
#[derive(Debug, Clone, PartialEq, Eq)]
pub struct ContractBalance {
    pub asset_id: Vec<u8>,
    pub amount: u64,
}

/// Any one record of the snapshot.
#[derive(Debug, Clone)]
pub enum StateEntry {
    Coin(CoinConfig),
    Message(MessageConfig),
    Contract(ContractConfig),
    ContractState(ContractState),
    ContractBalance(ContractBalance),
}

// ---------------------------------------------------------------------------
// Views
// ---------------------------------------------------------------------------

/// Mathematical view of a coin.
#[verifier::ext_equal]
pub ghost struct CoinV {
    pub tx_id: Option<Seq<u8>>,
    pub output_index: Option<u8>,
    pub tx_pointer_block_height: Option<u32>,
    pub tx_pointer_tx_idx: Option<u16>,
    pub maturity: Option<u32>,
    pub owner: Seq<u8>,
    pub amount: u64,
    pub asset_id: Seq<u8>,
}

/// Mathematical view of a message.
#[verifier::ext_equal]
pub ghost struct MessageV {
    pub sender: Seq<u8>,
    pub recipient: Seq<u8>,
    pub nonce: Seq<u8>,
    pub amount: u64,
    pub data: Seq<u8>,
    pub da_height: u64,
}

/// Mathematical view of a contract.
#[verifier::ext_equal]
pub ghost struct ContractV {
    pub contract_id: Seq<u8>,
    pub code: Seq<u8>,
    pub salt: Seq<u8>,
    pub tx_id: Option<Seq<u8>>,
    pub output_index: Option<u8>,
    pub tx_pointer_block_height: Option<u32>,
    pub tx_pointer_tx_idx: Option<u16>,
}

/// Mathematical view of a storage slot.
#[verifier::ext_equal]
pub ghost struct ContractStateV {
    pub key: Seq<u8>,
    pub value: Seq<u8>,
}

/// Mathematical view of a balance entry.
#[verifier::ext_equal]
pub ghost struct ContractBalanceV {
    pub asset_id: Seq<u8>,
    pub amount: u64,
}

/// View of an optional owned byte string.
pub open spec fn opt_view(o: Option<Vec<u8>>) -> Option<Seq<u8>> {
    match o {
        Some(v) => Some(v@),
        None => None,
    }
}

impl View for CoinConfig {
    type V = CoinV;

    open spec fn view(&self) -> CoinV {
        CoinV {
            tx_id: opt_view(self.tx_id),
            output_index: self.output_index,
            tx_pointer_block_height: self.tx_pointer_block_height,
            tx_pointer_tx_idx: self.tx_pointer_tx_idx,
            maturity: self.maturity,
            owner: self.owner@,
            amount: self.amount,
            asset_id: self.asset_id@,
        }
    }
}

impl View for MessageConfig {
    type V = MessageV;

    open spec fn view(&self) -> MessageV {
        MessageV {
            sender: self.sender@,
            recipient: self.recipient@,
            nonce: self.nonce@,
            amount: self.amount,
            data: self.data@,
            da_height: self.da_height,
        }
    }
}

impl View for ContractConfig {
    type V = ContractV;

    open spec fn view(&self) -> ContractV {
        ContractV {
            contract_id: self.contract_id@,
            code: self.code@,
            salt: self.salt@,
            tx_id: opt_view(self.tx_id),
            output_index: self.output_index,
            tx_pointer_block_height: self.tx_pointer_block_height,
            tx_pointer_tx_idx: self.tx_pointer_tx_idx,
        }
    }
}

impl View for ContractState {
    type V = ContractStateV;

    open spec fn view(&self) -> ContractStateV {
        ContractStateV { key: self.key@, value: self.value@ }
    }
}

impl View for ContractBalance {
    type V = ContractBalanceV;

    open spec fn view(&self) -> ContractBalanceV {
        ContractBalanceV { asset_id: self.asset_id@, amount: self.amount }
    }
}

/// The views of a batch, in order.
pub open spec fn views<T: View>(s: Seq<T>) -> Seq<T::V> {
    s.map_values(|t: T| t@)
}

// ---------------------------------------------------------------------------
// Well-formedness
// ---------------------------------------------------------------------------

/// A coin fits its schema: identifier fields are 32 bytes wide.
pub open spec fn coin_wf(c: CoinV) -> bool {
    &&& (c.tx_id is Some ==> c.tx_id->0.len() == ID_WIDTH)
    &&& c.owner.len() == ID_WIDTH
    &&& c.asset_id.len() == ID_WIDTH
}

/// A message fits its schema.
pub open spec fn message_wf(m: MessageV) -> bool {
    &&& m.sender.len() == ID_WIDTH
    &&& m.recipient.len() == ID_WIDTH
    &&& m.nonce.len() == ID_WIDTH
    &&& m.data.len() <= u32::MAX
}

/// A contract fits its schema.
pub open spec fn contract_wf(c: ContractV) -> bool {
    &&& c.contract_id.len() == ID_WIDTH
    &&& c.code.len() <= u32::MAX
    &&& c.salt.len() == ID_WIDTH
    &&& (c.tx_id is Some ==> c.tx_id->0.len() == ID_WIDTH)
}

/// A storage slot fits its schema.
pub open spec fn contract_state_wf(s: ContractStateV) -> bool {
    &&& s.key.len() == ID_WIDTH
    &&& s.value.len() == ID_WIDTH
}

/// A balance entry fits its schema.
pub open spec fn contract_balance_wf(b: ContractBalanceV) -> bool {
    b.asset_id.len() == ID_WIDTH
}

impl CoinConfig {
    /// Does this record satisfy its schema's shape?
    pub fn check_wf(&self) -> (b: bool)
        ensures
            b == coin_wf(self@),
    {
        let tx_ok = match &self.tx_id {
            Some(v) => v.len() == ID_WIDTH,
            None => true,
        };
        tx_ok && self.owner.len() == ID_WIDTH && self.asset_id.len() == ID_WIDTH
    }
}

impl MessageConfig {
    /// Does this record satisfy its schema's shape?
    pub fn check_wf(&self) -> (b: bool)
        ensures
            b == message_wf(self@),
    {
        self.sender.len() == ID_WIDTH && self.recipient.len() == ID_WIDTH && self.nonce.len()
            == ID_WIDTH && self.data.len() as u64 <= u32::MAX as u64
    }
}

impl ContractConfig {
    /// Does this record satisfy its schema's shape?
    pub fn check_wf(&self) -> (b: bool)
        ensures
            b == contract_wf(self@),
    {
        let tx_ok = match &self.tx_id {
            Some(v) => v.len() == ID_WIDTH,
            None => true,
        };
        self.contract_id.len() == ID_WIDTH && self.code.len() as u64 <= u32::MAX as u64
            && self.salt.len() == ID_WIDTH && tx_ok
    }
}

impl ContractState {
    /// Does this record satisfy its schema's shape?
    pub fn check_wf(&self) -> (b: bool)
        ensures
            b == contract_state_wf(self@),
    {
        self.key.len() == ID_WIDTH && self.value.len() == ID_WIDTH
    }
}

impl ContractBalance {
    /// Does this record satisfy its schema's shape?
    pub fn check_wf(&self) -> (b: bool)
        ensures
            b == contract_balance_wf(self@),
    {
        self.asset_id.len() == ID_WIDTH
    }
}

} // verus!
