use vstd::prelude::*;

use crate::model::Address;

verus! {

/// What normalisation reads of a decoded transaction envelope, per kind.
/// For signed kinds `caller` is the recovered signer.
#[derive(Debug, Clone, Copy, PartialEq, Eq, Structural)]
pub enum TxEnvelope {
    Legacy {
        caller: Address,
        gas_limit: u64,
        gas_price: u128,
        to: Option<Address>,
        chain_id: Option<u64>,
        nonce: u64,
    },
    Eip2930 {
        caller: Address,
        gas_limit: u64,
        gas_price: u128,
        to: Option<Address>,
        chain_id: u64,
        nonce: u64,
    },
    Eip1559 {
        caller: Address,
        gas_limit: u64,
        max_fee_per_gas: u128,
        max_priority_fee_per_gas: u128,
        to: Option<Address>,
        chain_id: u64,
        nonce: u64,
    },
    Deposit {
        from: Address,
        gas_limit: u64,
        to: Option<Address>,
        is_system_transaction: bool,
    },
    Other {
        type_id: u8,
    },
}

/// The normalised execution input. `to` is `None` for contract creation;
/// `carries_access_list` says whether the envelope's access list is kept.
#[derive(Debug, Clone, Copy, PartialEq, Eq, Structural)]
pub struct TxInput {
    pub caller: Address,
    pub gas_limit: u64,
    pub gas_price: u128,
    pub gas_priority_fee: Option<u128>,
    pub to: Option<Address>,
    pub chain_id: Option<u64>,
    pub nonce: Option<u64>,
    pub carries_access_list: bool,
    pub is_deposit: bool,
    pub is_system_transaction: bool,
}

/// Why an envelope could not be normalised.
#[derive(Debug, Clone, Copy, PartialEq, Eq, Structural)]
pub enum TxEnvError {
    UnsupportedTransactionType(u8),
}

/// Builds the execution input of a transaction envelope. Signed kinds run as
/// their signer and are never system transactions; only EIP-1559 carries a
/// priority fee, priced at its fee cap; deposits pay no gas and carry no
/// chain id, nonce or access list. Any other kind is refused with its type.
pub fn prepare_tx_env(transaction: &TxEnvelope) -> (r: Result<TxInput, TxEnvError>)
    ensures
        match *transaction {
            TxEnvelope::Legacy { caller, gas_limit, gas_price, to, chain_id, nonce } => r == Ok::<
                TxInput,
                TxEnvError,
            >(
                TxInput {
                    caller,
                    gas_limit,
                    gas_price,
                    gas_priority_fee: None,
                    to,
                    chain_id,
                    nonce: Some(nonce),
                    carries_access_list: false,
                    is_deposit: false,
                    is_system_transaction: false,
                },
            ),
            TxEnvelope::Eip2930 { caller, gas_limit, gas_price, to, chain_id, nonce } => r == Ok::<
                TxInput,
                TxEnvError,
            >(
                TxInput {
                    caller,
                    gas_limit,
                    gas_price,
                    gas_priority_fee: None,
                    to,
                    chain_id: Some(chain_id),
                    nonce: Some(nonce),
                    carries_access_list: true,
                    is_deposit: false,
                    is_system_transaction: false,
                },
            ),
            TxEnvelope::Eip1559 {
                caller,
                gas_limit,
                max_fee_per_gas,
                max_priority_fee_per_gas,
                to,
                chain_id,
                nonce,
            } => r == Ok::<TxInput, TxEnvError>(
                TxInput {
                    caller,
                    gas_limit,
                    gas_price: max_fee_per_gas,
                    gas_priority_fee: Some(max_priority_fee_per_gas),
                    to,
                    chain_id: Some(chain_id),
                    nonce: Some(nonce),
                    carries_access_list: true,
                    is_deposit: false,
                    is_system_transaction: false,
                },
            ),
            TxEnvelope::Deposit { from, gas_limit, to, is_system_transaction } => r == Ok::<
                TxInput,
                TxEnvError,
            >(
                TxInput {
                    caller: from,
                    gas_limit,
                    gas_price: 0,
                    gas_priority_fee: None,
                    to,
                    chain_id: None,
                    nonce: None,
                    carries_access_list: false,
                    is_deposit: true,
                    is_system_transaction,
                },
            ),
            TxEnvelope::Other { type_id } => r == Err::<TxInput, TxEnvError>(
                TxEnvError::UnsupportedTransactionType(type_id),
            ),
        },
{
    match *transaction {
        TxEnvelope::Legacy { caller, gas_limit, gas_price, to, chain_id, nonce } => Ok(
            TxInput {
                caller,
                gas_limit,
                gas_price,
                gas_priority_fee: None,
                to,
                chain_id,
                nonce: Some(nonce),
                carries_access_list: false,
                is_deposit: false,
                is_system_transaction: false,
            },
        ),
        TxEnvelope::Eip2930 { caller, gas_limit, gas_price, to, chain_id, nonce } => Ok(
            TxInput {
                caller,
                gas_limit,
                gas_price,
                gas_priority_fee: None,
                to,
                chain_id: Some(chain_id),
                nonce: Some(nonce),
                carries_access_list: true,
                is_deposit: false,
                is_system_transaction: false,
            },
        ),
        TxEnvelope::Eip1559 {
            caller,
            gas_limit,
            max_fee_per_gas,
            max_priority_fee_per_gas,
            to,
            chain_id,
            nonce,
        } => Ok(
            TxInput {
                caller,
                gas_limit,
                gas_price: max_fee_per_gas,
                gas_priority_fee: Some(max_priority_fee_per_gas),
                to,
                chain_id: Some(chain_id),
                nonce: Some(nonce),
                carries_access_list: true,
                is_deposit: false,
                is_system_transaction: false,
            },
        ),
        TxEnvelope::Deposit { from, gas_limit, to, is_system_transaction } => Ok(
            TxInput {
                caller: from,
                gas_limit,
                gas_price: 0,
                gas_priority_fee: None,
                to,
                chain_id: None,
                nonce: None,
                carries_access_list: false,
                is_deposit: true,
                is_system_transaction,
            },
        ),
        TxEnvelope::Other { type_id } => Err(TxEnvError::UnsupportedTransactionType(type_id)),
    }
}

} // verus!
