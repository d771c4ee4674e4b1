use mantle_conflict_rate::{prepare_tx_env, Address, TxEnvError, TxEnvelope};

fn addr(n: u64) -> Address {
    Address { high: 0, mid: 0, low: n }
}

#[test]
fn legacy_envelope() {
    let r = prepare_tx_env(&TxEnvelope::Legacy {
        caller: addr(1),
        gas_limit: 21000,
        gas_price: 7,
        to: Some(addr(2)),
        chain_id: None,
        nonce: 3,
    })
    .unwrap();
    assert_eq!(r.caller, addr(1));
    assert_eq!(r.gas_limit, 21000);
    assert_eq!(r.gas_price, 7);
    assert_eq!(r.gas_priority_fee, None);
    assert_eq!(r.to, Some(addr(2)));
    assert_eq!(r.chain_id, None);
    assert_eq!(r.nonce, Some(3));
    assert!(!r.carries_access_list);
    assert!(!r.is_deposit);
    assert!(!r.is_system_transaction);
}

#[test]
fn eip2930_envelope() {
    let r = prepare_tx_env(&TxEnvelope::Eip2930 {
        caller: addr(1),
        gas_limit: 50000,
        gas_price: 9,
        to: None,
        chain_id: 5000,
        nonce: 0,
    })
    .unwrap();
    assert_eq!(r.gas_price, 9);
    assert_eq!(r.to, None);
    assert_eq!(r.chain_id, Some(5000));
    assert_eq!(r.nonce, Some(0));
    assert!(r.carries_access_list);
}

#[test]
fn eip1559_envelope_prices_at_fee_cap() {
    let r = prepare_tx_env(&TxEnvelope::Eip1559 {
        caller: addr(4),
        gas_limit: 90000,
        max_fee_per_gas: 100,
        max_priority_fee_per_gas: 2,
        to: Some(addr(5)),
        chain_id: 5000,
        nonce: 12,
    })
    .unwrap();
    assert_eq!(r.caller, addr(4));
    assert_eq!(r.gas_price, 100);
    assert_eq!(r.gas_priority_fee, Some(2));
    assert_eq!(r.chain_id, Some(5000));
    assert_eq!(r.nonce, Some(12));
    assert!(r.carries_access_list);
    assert!(!r.is_deposit);
}

#[test]
fn deposit_envelope_pays_no_gas() {
    let r = prepare_tx_env(&TxEnvelope::Deposit {
        from: addr(8),
        gas_limit: 1000000,
        to: Some(addr(9)),
        is_system_transaction: true,
    })
    .unwrap();
    assert_eq!(r.caller, addr(8));
    assert_eq!(r.gas_price, 0);
    assert_eq!(r.gas_priority_fee, None);
    assert_eq!(r.chain_id, None);
    assert_eq!(r.nonce, None);
    assert!(r.is_deposit);
    assert!(r.is_system_transaction);
    assert!(!r.carries_access_list);
}

#[test]
fn unsupported_envelope_is_refused() {
    assert_eq!(
        prepare_tx_env(&TxEnvelope::Other { type_id: 3 }),
        Err(TxEnvError::UnsupportedTransactionType(3))
    );
}
