//! The snapshot service, end to end.
//!
//! `tokens_fold` is the declarative specification of the whole token loop:
//! what the collected balances, tolerated failures and terminal error are
//! after any prefix of the registry, for any query results.  The executable
//! `get_wallet_data` drives a `Session` over given results and provably
//! returns exactly `snapshot_spec`.  The lemmas at the end state the
//! service-wide laws: an empty registry yields an empty balance list, every
//! reported balance stems from a registry entry whose queried raw balance
//! was positive (zero balances are filtered), and the balances keep the
//! registry's order.

use vstd::prelude::*;

use crate::address::valid_address;
use crate::amount::RawAmount;
use crate::format::format_spec;
use crate::session::{Session, TokenStep};
use crate::types::{
    invalid_contract_cause, token_balance_model, FailurePolicy, PartialFailureModel, Snapshot,
    SnapshotError, SnapshotErrorModel, SnapshotModel, TokenBalanceModel, TokenDescriptor,
    TokenDescriptorModel, WalletDataModel, NATIVE_DECIMALS,
};

verus! {

/// Ghost model of a native balance query result.
pub open spec fn native_model(r: Result<RawAmount, String>) -> Result<nat, Seq<char>> {
    match r {
        Ok(a) => Ok(a@),
        Err(c) => Err(c@),
    }
}

/// Ghost model of one token query result: raw balance and decimals.
pub open spec fn token_result_model(r: Result<(RawAmount, u8), String>) -> Result<
    (nat, nat),
    Seq<char>,
> {
    match r {
        Ok(p) => Ok((p.0@, p.1 as nat)),
        Err(c) => Err(c@),
    }
}

/// State of the token loop: balances and failures collected so far, and the
/// terminal error once one occurred.
pub struct FoldState {
    pub balances: Seq<TokenBalanceModel>,
    pub failures: Seq<PartialFailureModel>,
    pub error: Option<SnapshotErrorModel>,
}

/// Why a registry entry is a per-item failure, if it is one: an invalid
/// contract address, else its query's failure.
pub open spec fn token_failure_cause(d: TokenDescriptorModel, res: Result<(nat, nat), Seq<char>>)
    -> Option<Seq<char>> {
    if !valid_address(d.contract_address) {
        Some(invalid_contract_cause(d.symbol))
    } else {
        match res {
            Err(c) => Some(c),
            Ok(_) => None,
        }
    }
}

/// How one registry entry changes the loop state.  After a terminal error
/// nothing changes; a failing entry fails the request (fail-fast) or is
/// recorded (partial); a zero raw balance is omitted; a positive one is
/// appended.
pub open spec fn fold_step(
    st: FoldState,
    d: TokenDescriptorModel,
    res: Result<(nat, nat), Seq<char>>,
    policy: FailurePolicy,
) -> FoldState {
    if st.error is Some {
        st
    } else {
        match token_failure_cause(d, res) {
            Some(cause) => match policy {
                FailurePolicy::FailFast => FoldState {
                    balances: st.balances,
                    failures: st.failures,
                    error: Some(SnapshotErrorModel::TokenQueryFailed(d.symbol, cause)),
                },
                FailurePolicy::Partial => FoldState {
                    balances: st.balances,
                    failures: st.failures.push(
                        PartialFailureModel { symbol: d.symbol, cause: cause },
                    ),
                    error: None,
                },
            },
            None => {
                let p = res->Ok_0;
                if p.0 == 0 {
                    st
                } else {
                    FoldState {
                        balances: st.balances.push(token_balance_model(d, p.0, p.1)),
                        failures: st.failures,
                        error: None,
                    }
                }
            },
        }
    }
}

/// The loop state after the first `k` registry entries.
pub open spec fn tokens_fold(
    registry: Seq<TokenDescriptorModel>,
    results: Seq<Result<(nat, nat), Seq<char>>>,
    policy: FailurePolicy,
    k: int,
) -> FoldState
    decreases k,
{
    if k <= 0 {
        FoldState {
            balances: Seq::empty(),
            failures: Seq::empty(),
            error: None,
        }
    } else {
        fold_step(
            tokens_fold(registry, results, policy, k - 1),
            registry[k - 1],
            results[k - 1],
            policy,
        )
    }
}

/// What the whole request returns, for any inputs and query results.
pub open spec fn snapshot_spec(
    address: Seq<char>,
    registry: Seq<TokenDescriptorModel>,
    policy: FailurePolicy,
    native: Result<nat, Seq<char>>,
    results: Seq<Result<(nat, nat), Seq<char>>>,
) -> Result<SnapshotModel, SnapshotErrorModel> {
    if !valid_address(address) {
        Err(SnapshotErrorModel::InvalidAddress)
    } else {
        match native {
            Err(c) => Err(SnapshotErrorModel::NativeQueryFailed(c)),
            Ok(n) => {
                let st = tokens_fold(registry, results, policy, registry.len() as int);
                match st.error {
                    Some(e) => Err(e),
                    None => Ok(
                        SnapshotModel {
                            wallet: WalletDataModel {
                                address: address,
                                eth_balance: format_spec(n, NATIVE_DECIMALS as nat),
                                token_balances: st.balances,
                            },
                            partial_failures: st.failures,
                        },
                    ),
                }
            },
        }
    }
}

/// Once the fold has failed, later entries change nothing.
proof fn lemma_fold_frozen(
    registry: Seq<TokenDescriptorModel>,
    results: Seq<Result<(nat, nat), Seq<char>>>,
    policy: FailurePolicy,
    k: int,
    m: int,
)
    requires
        0 <= k <= m,
        tokens_fold(registry, results, policy, k).error is Some,
    ensures
        tokens_fold(registry, results, policy, m) == tokens_fold(registry, results, policy, k),
    decreases m - k,
{
    if m > k {
        lemma_fold_frozen(registry, results, policy, k, m - 1);
    }
}

/// Runs a whole request over the given query results: validate, take the
/// native balance, walk the registry.  Returns exactly `snapshot_spec` of
/// the inputs.
pub fn get_wallet_data(
    address: &str,
    registry: Vec<TokenDescriptor>,
    policy: FailurePolicy,
    native: Result<RawAmount, String>,
    results: Vec<Result<(RawAmount, u8), String>>,
) -> (r: Result<Snapshot, SnapshotError>)
    requires
        results@.len() == registry@.len(),
    ensures
        ({
            let m = snapshot_spec(
                address@,
                registry@.map_values(|d: TokenDescriptor| d@),
                policy,
                native_model(native),
                results@.map_values(|q: Result<(RawAmount, u8), String>| token_result_model(q)),
            );
            match r {
                Ok(snap) => m matches Ok(sm) && snap@ == sm,
                Err(e) => m matches Err(em) && e@ == em,
            }
        }),
{
    let ghost regm = registry@.map_values(|d: TokenDescriptor| d@);
    let ghost resm = results@.map_values(
        |q: Result<(RawAmount, u8), String>| token_result_model(q),
    );
    let ghost nm = native_model(native);
    let mut s = match Session::new(address, registry, policy) {
        Err(e) => {
            return Err(e);
        },
        Ok(s) => s,
    };
    s.provide_native(&native);
    if s.has_failed() {
        return s.finish();
    }
    let ghost ethm = format_spec(nm->Ok_0, NATIVE_DECIMALS as nat);
    let mut done: bool = false;
    while !done
        invariant
            s.wf(),
            s.pending_spec() is None,
            s.registry_model() == regm,
            s.policy_spec() == policy,
            s.address_model() == address@,
            s.eth_model() == Some(ethm),
            results@.len() == regm.len(),
            resm == results@.map_values(
                |q: Result<(RawAmount, u8), String>| token_result_model(q),
            ),
            0 <= s.next_index_spec() <= regm.len(),
            ({
                let st = tokens_fold(regm, resm, policy, s.next_index_spec());
                s.balances_model() == st.balances && s.failures_model() == st.failures
                    && s.error_model() == st.error
            }),
            done ==> s.error_model() is Some || s.next_index_spec() == regm.len(),
        decreases regm.len() - s.next_index_spec() + (if done { 0int } else { 1int }),
    {
        if s.has_failed() {
            done = true;
        } else {
            let ghost k = s.next_index_spec();
            match s.next_token() {
                TokenStep::NoneLeft => {
                    done = true;
                },
                TokenStep::Skipped => {
                    proof {
                        assert(tokens_fold(regm, resm, policy, k + 1) == fold_step(
                            tokens_fold(regm, resm, policy, k),
                            regm[k],
                            resm[k],
                            policy,
                        ));
                        assert(token_failure_cause(regm[k], resm[k]) == Some(
                            invalid_contract_cause(regm[k].symbol),
                        ));
                    }
                },
                TokenStep::Query(tq) => {
                    let outcome = &results[tq.index];
                    s.provide_token(outcome);
                    proof {
                        assert(tokens_fold(regm, resm, policy, k + 1) == fold_step(
                            tokens_fold(regm, resm, policy, k),
                            regm[k],
                            resm[k],
                            policy,
                        ));
                        assert(resm[k] == token_result_model(results@[k]));
                    }
                },
            }
        }
    }
    proof {
        if s.error_model() is Some {
            lemma_fold_frozen(regm, resm, policy, s.next_index_spec(), regm.len() as int);
        }
    }
    let r = s.finish();
    proof {
        let m = snapshot_spec(address@, regm, policy, nm, resm);
        let st = tokens_fold(regm, resm, policy, regm.len() as int);
        if r is Ok {
            let snap = r->Ok_0;
            assert(st.error is None);
            assert(snap@.wallet.token_balances == st.balances);
            assert(snap@.partial_failures == st.failures);
            assert(m matches Ok(sm) && snap@ == sm);
        } else {
            let e = r->Err_0;
            assert(m matches Err(em) && e@ == em);
        }
    }
    r
}

/// The descriptors of the built-in registry, in display order.
pub open spec fn default_registry_model() -> Seq<TokenDescriptorModel> {
    seq![
        TokenDescriptorModel {
            symbol: "USDT"@,
            contract_address: "0xdAC17F958D2ee523a2206206994597C13D831ec7"@,
            display_name: "Tether USD"@,
        },
        TokenDescriptorModel {
            symbol: "USDC"@,
            contract_address: "0xA0b86991c6218b36c1d19D4a2e9Eb0cE3606eB48"@,
            display_name: "USD Coin"@,
        },
        TokenDescriptorModel {
            symbol: "DAI"@,
            contract_address: "0x6B175474E89094C44Da98b954EedeAC495271d0F"@,
            display_name: "Dai Stablecoin"@,
        },
        TokenDescriptorModel {
            symbol: "WETH"@,
            contract_address: "0xC02aaA39b223FE8D0A0e5C4F27eAD9083C756Cc2"@,
            display_name: "Wrapped Ether"@,
        },
        TokenDescriptorModel {
            symbol: "UNI"@,
            contract_address: "0x1f9840a85d5aF5bf1D1762F925BDADdC4201F984"@,
            display_name: "Uniswap"@,
        },
        TokenDescriptorModel {
            symbol: "LINK"@,
            contract_address: "0x514910771AF9Ca656af840dff83E8264EcF986CA"@,
            display_name: "Chainlink"@,
        },
        TokenDescriptorModel {
            symbol: "AAVE"@,
            contract_address: "0x7Fc66500c84A76Ad7e9c93437bFc5Ac33E2DDaE9"@,
            display_name: "Aave"@,
        },
        TokenDescriptorModel {
            symbol: "COMP"@,
            contract_address: "0xc00e94Cb662C3520282E6f5717214004A7f26888"@,
            display_name: "Compound"@,
        },
    ]
}

/// The built-in registry: the well-known token contracts queried by
/// default, in display order.
pub fn default_registry() -> (r: Vec<TokenDescriptor>)
    ensures
        r@.map_values(|d: TokenDescriptor| d@) == default_registry_model(),
        r@.len() == 8,
{
    let mut v: Vec<TokenDescriptor> = Vec::new();
    v.push(
        TokenDescriptor::new(
            String::from_str("USDT"),
            String::from_str("0xdAC17F958D2ee523a2206206994597C13D831ec7"),
            String::from_str("Tether USD"),
        ),
    );
    v.push(
        TokenDescriptor::new(
            String::from_str("USDC"),
            String::from_str("0xA0b86991c6218b36c1d19D4a2e9Eb0cE3606eB48"),
            String::from_str("USD Coin"),
        ),
    );
    v.push(
        TokenDescriptor::new(
            String::from_str("DAI"),
            String::from_str("0x6B175474E89094C44Da98b954EedeAC495271d0F"),
            String::from_str("Dai Stablecoin"),
        ),
    );
    v.push(
        TokenDescriptor::new(
            String::from_str("WETH"),
            String::from_str("0xC02aaA39b223FE8D0A0e5C4F27eAD9083C756Cc2"),
            String::from_str("Wrapped Ether"),
        ),
    );
    v.push(
        TokenDescriptor::new(
            String::from_str("UNI"),
            String::from_str("0x1f9840a85d5aF5bf1D1762F925BDADdC4201F984"),
            String::from_str("Uniswap"),
        ),
    );
    v.push(
        TokenDescriptor::new(
            String::from_str("LINK"),
            String::from_str("0x514910771AF9Ca656af840dff83E8264EcF986CA"),
            String::from_str("Chainlink"),
        ),
    );
    v.push(
        TokenDescriptor::new(
            String::from_str("AAVE"),
            String::from_str("0x7Fc66500c84A76Ad7e9c93437bFc5Ac33E2DDaE9"),
            String::from_str("Aave"),
        ),
    );
    v.push(
        TokenDescriptor::new(
            String::from_str("COMP"),
            String::from_str("0xc00e94Cb662C3520282E6f5717214004A7f26888"),
            String::from_str("Compound"),
        ),
    );
    proof {
        assert(v@.map_values(|d: TokenDescriptor| d@) =~= default_registry_model());
    }
    v
}

/// A registry entry contributes a balance exactly when its contract address
/// is valid, its query succeeded, and the raw balance is positive.
pub open spec fn included(d: TokenDescriptorModel, res: Result<(nat, nat), Seq<char>>) -> bool {
    valid_address(d.contract_address) && res is Ok && res->Ok_0.0 > 0
}

/// The balance entry a registry position yields when included.
pub open spec fn entry_at(
    registry: Seq<TokenDescriptorModel>,
    results: Seq<Result<(nat, nat), Seq<char>>>,
    j: int,
) -> TokenBalanceModel {
    token_balance_model(registry[j], results[j]->Ok_0.0, results[j]->Ok_0.1)
}

/// The registry positions that contribute a balance among the first `k`.
pub open spec fn origins(
    registry: Seq<TokenDescriptorModel>,
    results: Seq<Result<(nat, nat), Seq<char>>>,
    policy: FailurePolicy,
    k: int,
) -> Seq<int>
    decreases k,
{
    if k <= 0 {
        Seq::empty()
    } else {
        let prev = origins(registry, results, policy, k - 1);
        if tokens_fold(registry, results, policy, k - 1).error is None && included(
            registry[k - 1],
            results[k - 1],
        ) {
            prev.push(k - 1)
        } else {
            prev
        }
    }
}

/// The shape of the collected balances, proved for every input: each one
/// stems from a distinct registry entry whose queried raw balance was
/// positive (so zero balances are provably absent), and their order is the
/// registry's order, strictly increasing.  While no terminal error has
/// occurred, every included entry is present.
pub proof fn lemma_fold_characterization(
    registry: Seq<TokenDescriptorModel>,
    results: Seq<Result<(nat, nat), Seq<char>>>,
    policy: FailurePolicy,
    k: int,
)
    requires
        0 <= k,
    ensures
        ({
            let st = tokens_fold(registry, results, policy, k);
            let og = origins(registry, results, policy, k);
            &&& st.balances.len() == og.len()
            &&& forall|a: int|
                0 <= a < og.len() ==> 0 <= #[trigger] og[a] < k && included(
                    registry[og[a]],
                    results[og[a]],
                ) && st.balances[a] == entry_at(registry, results, og[a])
            &&& forall|a: int, b: int|
                0 <= a < b < og.len() ==> #[trigger] og[a] < #[trigger] og[b]
            &&& (st.error is None ==> forall|j: int|
                0 <= j < k && included(registry[j], results[j]) ==> og.contains(j))
        }),
    decreases k,
{
    if k > 0 {
        lemma_fold_characterization(registry, results, policy, k - 1);
        let prev = tokens_fold(registry, results, policy, k - 1);
        let st = tokens_fold(registry, results, policy, k);
        let ogp = origins(registry, results, policy, k - 1);
        let og = origins(registry, results, policy, k);
        if prev.error is None && included(registry[k - 1], results[k - 1]) {
            assert(og == ogp.push(k - 1));
            assert(st.balances == prev.balances.push(entry_at(registry, results, k - 1)));
            assert forall|a: int| 0 <= a < og.len() implies 0 <= #[trigger] og[a] < k && included(
                registry[og[a]],
                results[og[a]],
            ) && st.balances[a] == entry_at(registry, results, og[a]) by {
                if a < ogp.len() {
                    assert(og[a] == ogp[a]);
                    assert(st.balances[a] == prev.balances[a]);
                }
            }
            if st.error is None {
                assert forall|j: int|
                    0 <= j < k && included(registry[j], results[j]) implies og.contains(j) by {
                    if j < k - 1 {
                        assert(ogp.contains(j));
                        let a = choose|a: int| 0 <= a < ogp.len() && ogp[a] == j;
                        assert(og[a] == j);
                    } else {
                        assert(og[og.len() - 1] == j);
                    }
                }
            }
        } else {
            assert(og == ogp);
            assert(st.balances == prev.balances);
            if st.error is None {
                assert(prev.error is None);
                assert forall|j: int|
                    0 <= j < k && included(registry[j], results[j]) implies og.contains(j) by {
                    assert(j != k - 1);
                    assert(ogp.contains(j));
                    let a = choose|a: int| 0 <= a < ogp.len() && ogp[a] == j;
                    assert(og[a] == j);
                }
            }
        }
    }
}

/// With a valid address and an empty registry, a served native balance
/// always yields a snapshot with no token balances, no failures, and the
/// exactly formatted native balance.
pub proof fn lemma_empty_registry(
    address: Seq<char>,
    policy: FailurePolicy,
    native_raw: nat,
    results: Seq<Result<(nat, nat), Seq<char>>>,
)
    requires
        valid_address(address),
    ensures
        ({
            let m = snapshot_spec(address, Seq::empty(), policy, Ok(native_raw), results);
            &&& m matches Ok(sm)
            &&& m->Ok_0.wallet.token_balances == Seq::<TokenBalanceModel>::empty()
            &&& m->Ok_0.wallet.eth_balance == format_spec(native_raw, NATIVE_DECIMALS as nat)
            &&& m->Ok_0.wallet.address == address
            &&& m->Ok_0.partial_failures == Seq::<PartialFailureModel>::empty()
        }),
{
}

} // verus!
