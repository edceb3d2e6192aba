use wallet_snapshot::amount::RawAmount;
use wallet_snapshot::service::{default_registry, get_wallet_data};
use wallet_snapshot::session::{Session, TokenStep};
use wallet_snapshot::types::{FailurePolicy, SnapshotError, TokenDescriptor};

const ADDR: &str = "0x0000000000000000000000000000000000000001";

fn descriptor(symbol: &str, contract: &str, name: &str) -> TokenDescriptor {
    TokenDescriptor::new(symbol.to_string(), contract.to_string(), name.to_string())
}

fn usdt_like(symbol: &str) -> TokenDescriptor {
    descriptor(
        symbol,
        "0xdAC17F958D2ee523a2206206994597C13D831ec7",
        "Some Token",
    )
}

#[test]
fn empty_registry_gives_snapshot_with_native_balance_only() {
    let native = RawAmount::from_u128(1_500_000_000_000_000_000);
    let r = get_wallet_data(ADDR, Vec::new(), FailurePolicy::FailFast, Ok(native), Vec::new());
    let snap = r.unwrap();
    assert_eq!(snap.wallet.address, ADDR);
    assert_eq!(snap.wallet.eth_balance, "1.500000");
    assert!(snap.wallet.token_balances.is_empty());
    assert!(snap.partial_failures.is_empty());
}

#[test]
fn scenario_native_and_one_token() {
    let native = RawAmount::from_u128(1_500_000_000_000_000_000);
    let registry = vec![usdt_like("USDT")];
    let results = vec![Ok((RawAmount::from_u128(1_000_000), 6u8))];
    let snap =
        get_wallet_data(ADDR, registry, FailurePolicy::FailFast, Ok(native), results).unwrap();
    assert_eq!(snap.wallet.eth_balance, "1.500000");
    assert_eq!(snap.wallet.token_balances.len(), 1);
    let tb = &snap.wallet.token_balances[0];
    assert_eq!(tb.symbol, "USDT");
    assert_eq!(tb.name, "Some Token");
    assert_eq!(tb.balance, "1.000000");
    assert_eq!(tb.decimals, 6);
    assert_eq!(tb.contract_address, "0xdAC17F958D2ee523a2206206994597C13D831ec7");
}

#[test]
fn zero_balance_tokens_are_omitted() {
    let native = RawAmount::from_u64(1);
    let registry = vec![usdt_like("A"), usdt_like("B"), usdt_like("C")];
    let results = vec![
        Ok((RawAmount::from_u64(1), 6u8)),
        Ok((RawAmount::zero(), 6u8)),
        Ok((RawAmount::from_u64(2), 6u8)),
    ];
    let snap =
        get_wallet_data(ADDR, registry, FailurePolicy::FailFast, Ok(native), results).unwrap();
    let symbols: Vec<&str> =
        snap.wallet.token_balances.iter().map(|b| b.symbol.as_str()).collect();
    assert_eq!(symbols, vec!["A", "C"]);
}

#[test]
fn balances_keep_registry_order() {
    let native = RawAmount::from_u64(1);
    let registry = vec![usdt_like("T1"), usdt_like("T2"), usdt_like("T3"), usdt_like("T4")];
    let results = vec![
        Ok((RawAmount::from_u64(4), 2u8)),
        Ok((RawAmount::zero(), 2u8)),
        Ok((RawAmount::from_u64(9), 2u8)),
        Ok((RawAmount::from_u64(1), 2u8)),
    ];
    let snap =
        get_wallet_data(ADDR, registry, FailurePolicy::Partial, Ok(native), results).unwrap();
    let symbols: Vec<&str> =
        snap.wallet.token_balances.iter().map(|b| b.symbol.as_str()).collect();
    assert_eq!(symbols, vec!["T1", "T3", "T4"]);
}

#[test]
fn invalid_address_is_rejected_before_any_query() {
    // A mock client would count its invocations here; rejection happens at
    // construction, so no session exists to hand a query out.
    let queries_run: usize = 0;
    let r = Session::new("0xnot-an-address", default_registry(), FailurePolicy::FailFast);
    match r {
        Err(e) => assert!(matches!(e, SnapshotError::InvalidAddress)),
        Ok(_) => panic!("invalid address accepted"),
    }
    assert_eq!(queries_run, 0);
}

#[test]
fn invalid_address_in_one_shot_call() {
    let r = get_wallet_data(
        "1234",
        Vec::new(),
        FailurePolicy::FailFast,
        Ok(RawAmount::zero()),
        Vec::new(),
    );
    assert!(matches!(r, Err(SnapshotError::InvalidAddress)));
}

#[test]
fn native_failure_yields_single_error_and_no_snapshot() {
    let registry = vec![usdt_like("USDT")];
    let results = vec![Ok((RawAmount::from_u64(5), 6u8))];
    let r = get_wallet_data(
        ADDR,
        registry,
        FailurePolicy::FailFast,
        Err("node unreachable".to_string()),
        results,
    );
    match r {
        Err(SnapshotError::NativeQueryFailed(cause)) => assert_eq!(cause, "node unreachable"),
        _ => panic!("expected NativeQueryFailed"),
    }
}

#[test]
fn partial_policy_keeps_other_tokens_and_records_the_failure() {
    let native = RawAmount::from_u64(1);
    let registry = vec![usdt_like("BAD"), usdt_like("GOOD")];
    let results = vec![
        Err("decode error".to_string()),
        Ok((RawAmount::from_u64(3), 1u8)),
    ];
    let snap =
        get_wallet_data(ADDR, registry, FailurePolicy::Partial, Ok(native), results).unwrap();
    assert_eq!(snap.wallet.token_balances.len(), 1);
    assert_eq!(snap.wallet.token_balances[0].symbol, "GOOD");
    assert_eq!(snap.wallet.token_balances[0].balance, "0.300000");
    assert_eq!(snap.partial_failures.len(), 1);
    assert_eq!(snap.partial_failures[0].symbol, "BAD");
    assert_eq!(snap.partial_failures[0].cause, "decode error");
}

#[test]
fn fail_fast_aborts_on_first_token_failure() {
    let native = RawAmount::from_u64(1);
    let registry = vec![usdt_like("BAD"), usdt_like("NEVER")];
    let results = vec![
        Err("timeout".to_string()),
        Ok((RawAmount::from_u64(3), 1u8)),
    ];
    let r = get_wallet_data(ADDR, registry, FailurePolicy::FailFast, Ok(native), results);
    match r {
        Err(SnapshotError::TokenQueryFailed(symbol, cause)) => {
            assert_eq!(symbol, "BAD");
            assert_eq!(cause, "timeout");
        },
        _ => panic!("expected TokenQueryFailed"),
    }
}

#[test]
fn invalid_contract_address_is_a_per_item_failure() {
    let native = RawAmount::from_u64(1);
    let registry = vec![
        descriptor("BROKEN", "0xzz", "Broken Token"),
        usdt_like("FINE"),
    ];
    let results = vec![
        Ok((RawAmount::from_u64(1), 0u8)),
        Ok((RawAmount::from_u64(2), 0u8)),
    ];
    let snap = get_wallet_data(
        ADDR,
        registry,
        FailurePolicy::Partial,
        Ok(native),
        results,
    )
    .unwrap();
    assert_eq!(snap.wallet.token_balances.len(), 1);
    assert_eq!(snap.wallet.token_balances[0].symbol, "FINE");
    assert_eq!(snap.partial_failures.len(), 1);
    assert_eq!(snap.partial_failures[0].symbol, "BROKEN");
    assert_eq!(
        snap.partial_failures[0].cause,
        "Invalid contract address for BROKEN"
    );

    // Under fail-fast the same registry aborts the whole request.
    let registry2 = vec![
        descriptor("BROKEN", "0xzz", "Broken Token"),
        usdt_like("FINE"),
    ];
    let results2 = vec![
        Ok((RawAmount::from_u64(1), 0u8)),
        Ok((RawAmount::from_u64(2), 0u8)),
    ];
    let r2 = get_wallet_data(
        ADDR,
        registry2,
        FailurePolicy::FailFast,
        Ok(RawAmount::from_u64(1)),
        results2,
    );
    match r2 {
        Err(SnapshotError::TokenQueryFailed(symbol, cause)) => {
            assert_eq!(symbol, "BROKEN");
            assert_eq!(cause, "Invalid contract address for BROKEN");
        },
        _ => panic!("expected TokenQueryFailed"),
    }
}

#[test]
fn session_stops_handing_out_queries_after_fail_fast_failure() {
    let registry = vec![usdt_like("T1"), usdt_like("T2"), usdt_like("T3")];
    let mut s = Session::new(ADDR, registry, FailurePolicy::FailFast).unwrap();
    s.provide_native(&Ok(RawAmount::from_u64(1)));
    assert!(!s.has_failed());
    let mut queries_run: usize = 0;
    loop {
        if s.has_failed() {
            break;
        }
        match s.next_token() {
            TokenStep::NoneLeft => break,
            TokenStep::Skipped => {},
            TokenStep::Query(q) => {
                assert_eq!(q.contract.len(), 20);
                queries_run += 1;
                s.provide_token(&Err("boom".to_string()));
            },
        }
    }
    assert_eq!(queries_run, 1);
    let r = s.finish();
    assert!(matches!(r, Err(SnapshotError::TokenQueryFailed(_, _))));
}

#[test]
fn session_hands_out_native_address_bytes() {
    let mut s = Session::new(ADDR, Vec::new(), FailurePolicy::FailFast).unwrap();
    assert_eq!(s.address_bytes().len(), 20);
    assert_eq!(s.address_bytes()[19], 1);
    s.provide_native(&Ok(RawAmount::zero()));
    assert!(matches!(s.next_token(), TokenStep::NoneLeft));
    let snap = s.finish().unwrap();
    assert_eq!(snap.wallet.eth_balance, "0");
}

#[test]
fn default_registry_lists_the_known_tokens() {
    let reg = default_registry();
    assert_eq!(reg.len(), 8);
    assert_eq!(reg[0].symbol, "USDT");
    assert_eq!(reg[0].contract_address, "0xdAC17F958D2ee523a2206206994597C13D831ec7");
    assert_eq!(reg[0].display_name, "Tether USD");
    assert_eq!(reg[7].symbol, "COMP");
}

#[test]
fn error_messages_carry_their_cause() {
    let e = SnapshotError::NativeQueryFailed("no route".to_string());
    assert_eq!(e.message(), "no route");
    let t = SnapshotError::TokenQueryFailed("USDT".to_string(), "bad abi".to_string());
    assert_eq!(t.message(), "bad abi");
    let i = SnapshotError::InvalidAddress;
    assert_eq!(i.message(), "Invalid Ethereum address");
}
