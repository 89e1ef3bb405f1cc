//! Holders for the five per-record-type streams of a snapshot: the typed
//! batches on the way in, and one sink or source per record type on the way
//! out.

use vstd::prelude::*;

use crate::records::{CoinConfig, ContractBalance, ContractConfig, ContractState, MessageConfig};

verus! {

/// A byte sink that only counts what is written to it.
#[derive(Debug)]
pub struct CountingSink {
    pub written_bytes: usize,
}

impl CountingSink {
    /// A sink that has counted nothing yet.
    pub fn new() -> (s: CountingSink)
        ensures
            s.written_bytes == 0,
    {
        CountingSink { written_bytes: 0 }
    }

    /// Accept a buffer, counting its bytes; reports how many were taken.
    pub fn write(&mut self, buf: &[u8]) -> (n: usize)
        requires
            old(self).written_bytes + buf@.len() <= usize::MAX,
        ensures
            n == buf@.len(),
            final(self).written_bytes == old(self).written_bytes + n,
    {
        let len = buf.len();
        self.written_bytes = self.written_bytes + len;
        len
    }

    /// Nothing is buffered, so flushing does nothing.
    pub fn flush(&self) {
    }
}

/// One full snapshot: a batch of every record type.
pub struct Payload {
    pub coins: Vec<CoinConfig>,
    pub messages: Vec<MessageConfig>,
    pub contracts: Vec<ContractConfig>,
    pub contract_state: Vec<ContractState>,
    pub contract_balance: Vec<ContractBalance>,
}

impl Payload {
    /// How many coin, message and contract records the snapshot holds.
    pub fn num_entries(&self) -> (n: usize)
        requires
            self.coins@.len() + self.messages@.len() + self.contracts@.len() <= usize::MAX,
        ensures
            n == self.coins@.len() + self.messages@.len() + self.contracts@.len(),
    {
        self.coins.len() + self.messages.len() + self.contracts.len()
    }
}

/// One value per record type: sinks while encoding, sources while decoding.
pub struct Data<T> {
    pub coins: T,
    pub messages: T,
    pub contracts: T,
    pub contract_state: T,
    pub contract_balance: T,
}

impl Data<Vec<u8>> {
    /// Five fresh buffers, each with room for `cap` bytes.
    pub fn with_capacity(cap: usize) -> (d: Data<Vec<u8>>)
        ensures
            d.coins@.len() == 0,
            d.messages@.len() == 0,
            d.contracts@.len() == 0,
            d.contract_state@.len() == 0,
            d.contract_balance@.len() == 0,
    {
        Data {
            coins: Vec::with_capacity(cap),
            messages: Vec::with_capacity(cap),
            contracts: Vec::with_capacity(cap),
            contract_state: Vec::with_capacity(cap),
            contract_balance: Vec::with_capacity(cap),
        }
    }

    /// Empty all five buffers.
    pub fn clear(&mut self)
        ensures
            final(self).coins@.len() == 0,
            final(self).messages@.len() == 0,
            final(self).contracts@.len() == 0,
            final(self).contract_state@.len() == 0,
            final(self).contract_balance@.len() == 0,
    {
        self.coins.clear();
        self.messages.clear();
        self.contracts.clear();
        self.contract_state.clear();
        self.contract_balance.clear();
    }

    /// The total bytes held across the five buffers.
    pub fn len(&self) -> (n: usize)
        requires
            self.coins@.len() + self.messages@.len() + self.contracts@.len()
                + self.contract_state@.len() + self.contract_balance@.len() <= usize::MAX,
        ensures
            n == self.coins@.len() + self.messages@.len() + self.contracts@.len()
                + self.contract_state@.len() + self.contract_balance@.len(),
    {
        self.coins.len() + self.messages.len() + self.contracts.len() + self.contract_state.len()
            + self.contract_balance.len()
    }

    /// Borrow all five buffers as byte slices.
    pub fn as_ref(&self) -> (d: Data<&[u8]>)
        ensures
            d.coins@ == self.coins@,
            d.messages@ == self.messages@,
            d.contracts@ == self.contracts@,
            d.contract_state@ == self.contract_state@,
            d.contract_balance@ == self.contract_balance@,
    {
        Data {
            coins: self.coins.as_slice(),
            messages: self.messages.as_slice(),
            contracts: self.contracts.as_slice(),
            contract_state: self.contract_state.as_slice(),
            contract_balance: self.contract_balance.as_slice(),
        }
    }
}

impl<'a> Data<&'a [u8]> {
    /// The total bytes held across the five borrowed slices.
    pub fn len(&self) -> (n: usize)
        requires
            self.coins@.len() + self.messages@.len() + self.contracts@.len()
                + self.contract_state@.len() + self.contract_balance@.len() <= usize::MAX,
        ensures
            n == self.coins@.len() + self.messages@.len() + self.contracts@.len()
                + self.contract_state@.len() + self.contract_balance@.len(),
    {
        self.coins.len() + self.messages.len() + self.contracts.len() + self.contract_state.len()
            + self.contract_balance.len()
    }

    /// Whether all five slices are empty.
    pub fn is_empty(&self) -> (b: bool)
        requires
            self.coins@.len() + self.messages@.len() + self.contracts@.len()
                + self.contract_state@.len() + self.contract_balance@.len() <= usize::MAX,
        ensures
            b == (self.coins@.len() + self.messages@.len() + self.contracts@.len()
                + self.contract_state@.len() + self.contract_balance@.len() == 0),
    {
        self.len() == 0
    }
}

} // verus!
